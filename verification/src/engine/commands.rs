//! What a host may ask the engine to do, and what the engine makes of it.
use vstd::prelude::*;

use crate::artifact_codec::ArtifactCodecProvenance;
use crate::assoc;
use crate::capsule::TurnCapsule;
use crate::config::{
    are_enabled_pins, Config, ConfigError, is_first_pinned, is_first_refusal,
    is_listed_resolution,
};
use crate::egress::EgressAllowance;
use crate::engine::plugins::{
    adopt_extension, adopt_plugin, artifact_codec_plugin_in_use, check_removable,
    CompatibilityWarning, enable_global_extension, EngineError, extension_pin, extension_refusal,
    find_pin_index, GlobalExtensionSelection, has_begun, installed_plugin, is_adopted_pin,
    is_adoption_warning, is_registration, is_selection, pin_index, pins_beside, plugin_pin,
    register_artifact_inspector, set_plugin_enabled, starting_pins, switching, upgrade_plugin,
    uses_codec, without_pin,
};
use crate::engine::sessions::{
    check_preset_pinned, opt_out_path, override_prompt_order, source_branch, StcliEngine,
};
use crate::identity::{ContentHash, EntityId};
use crate::interaction::submission::InteractionSubmission;
use crate::interaction::surface::InteractionIdentity;
use crate::json::Json;
use crate::plugin::{
    ArtifactInspectorRegistration, copy_capabilities, InstalledPlugin, is_pinned, is_within,
    PluginCapability, PluginManifest, PluginRegistry, within,
};
use crate::prompt::segment::optional_hash;
use crate::session::{
    BranchProjection, PluginPin, SessionConfiguration, SessionConfigurationRecord, SessionError,
    SessionProjection,
};
use crate::text;
use crate::turn::TurnError;

verus! {

pub const DEFAULT_NEMO_DIRECTIVES_PLUGIN_ID: &'static str = "org.stcli.nemo-directives";

pub const DEFAULT_MEMORY_EXTENSION_ID: &'static str = "memory";

pub const DEFAULT_SILLYTAVERN_CODEC_PLUGIN_ID: &'static str = "org.stcli.sillytavern-codec";

/// What a host may ask the engine to do.
#[derive(Debug)]
pub enum EngineCommand {
    InstallPlugin { directory: String },
    ImportExtension { directory: String },
    EnableGlobalExtension {
        id: String,
        version: String,
        digest: ContentHash,
        settings: Json,
        egress: Vec<EgressAllowance>,
    },
    DisableGlobalExtension { id: String },
    RestoreDefaultPlugins,
    RemovePlugin { plugin_id: String },
    AdoptPlugin {
        session_id: EntityId,
        id: String,
        version: String,
        digest: ContentHash,
        capabilities: Vec<PluginCapability>,
        settings: Json,
        egress: Vec<EgressAllowance>,
    },
    AdoptExtension {
        session_id: EntityId,
        id: String,
        version: String,
        digest: ContentHash,
        settings: Json,
        egress: Vec<EgressAllowance>,
    },
    SubmitExtensionInteraction {
        identity: InteractionIdentity,
        expected_revision: ContentHash,
        submission: InteractionSubmission,
    },
    RegisterArtifactInspector {
        id: String,
        version: String,
        digest: ContentHash,
        capabilities: Vec<PluginCapability>,
    },
    UpgradePlugin { session_id: EntityId, id: String, version: String, digest: ContentHash },
    SetPluginEnabled { session_id: EntityId, id: String, enabled: bool },
    SetExtensionEnabled { session_id: EntityId, id: String, enabled: bool },
    ImportArtifact { source: Vec<u8> },
    ExecuteStscript { session_id: EntityId, execution_id: EntityId, source: String, limits: Json },
    CreateSession { configuration: Box<SessionConfiguration>, greeting_index: usize },
    CreateBranch {
        session_id: EntityId,
        source_branch_id: Option<EntityId>,
        at_turn_id: Option<EntityId>,
    },
    DuplicateSession {
        session_id: EntityId,
        branch_id: Option<EntityId>,
        up_to_turn_id: Option<EntityId>,
        new_name: Option<String>,
    },
    RenameSession { session_id: EntityId, name: String },
    ArchiveSession { session_id: EntityId },
    PurgeSession { session_id: EntityId },
    CompactSession { session_id: EntityId },
    Recover,
    RebuildSessionProjections,
    DeleteBranch { branch_id: EntityId },
    HideCandidate { candidate_id: EntityId },
    DeleteCandidate { candidate_id: EntityId },
    HideTurn { turn_id: EntityId },
    DeleteTurn { turn_id: EntityId },
    ImportCapsule { capsule: Box<TurnCapsule> },
    InvokePlugin {
        session_id: EntityId,
        branch_id: Option<EntityId>,
        plugin_id: String,
        command: String,
        arguments: Json,
    },
    Send { session_id: EntityId, branch_id: EntityId, content: String },
    Retry { turn_id: EntityId, attempt_id: EntityId },
    Regenerate { turn_id: EntityId },
    Continue { turn_id: EntityId },
    GenerateSwipe { turn_id: EntityId },
    SelectCandidate { turn_id: EntityId, candidate_id: EntityId },
    EditUser { turn_id: EntityId, content: String },
    EditCandidate { candidate_id: EntityId, content: String },
    Cancel { attempt_id: EntityId },
    SelectGreeting { session_id: EntityId, branch_id: EntityId, greeting_index: usize },
    UpdatePromptOrderOverride { session_id: EntityId, identifier: String, enabled: Option<bool> },
    UpdatePromptOrder {
        session_id: Option<EntityId>,
        revision_hash: ContentHash,
        character_id: Option<u64>,
        changes: Vec<(String, bool)>,
    },
    UpdateConfiguration { session_id: EntityId, configuration: Box<SessionConfiguration> },
    DryRunSend { session_id: EntityId, branch_id: EntityId, content: String },
    DryRunRegenerate { turn_id: EntityId },
    DryRunContinue { turn_id: EntityId },
    DryRunSwipe { turn_id: EntityId },
    Rerun { session_id: EntityId, attempt_id: EntityId },
}

/// What a host holds of that which a command is about.
#[derive(Debug)]
pub struct CommandFacts {
    /// The packages that are installed.
    pub listing: Vec<InstalledPlugin>,
    pub config: Config,
    /// The capabilities that every extension is granted.
    pub tier: Vec<PluginCapability>,
    /// The session that the command names.
    pub session: Option<SessionProjection>,
    /// The configuration that the session has now.
    pub configuration: Option<SessionConfigurationRecord>,
    /// The prompts that the session switches on or off itself.
    pub overrides: Vec<(String, bool)>,
    /// The branch that the command starts from.
    pub branch: Option<BranchProjection>,
    /// The session of the attempt that the command names.
    pub attempt_session: Option<EntityId>,
    /// What kinds of events the session has had.
    pub events: Vec<String>,
    /// Some session is bound to the plugin that the command names.
    pub pinned: bool,
    pub provenances: Vec<ArtifactCodecProvenance>,
}

/// What is left to do once the engine has decided.
#[derive(Debug)]
pub enum EngineAction {
    /// The store carries the command out as it stands.
    Delegate(EngineCommand),
    InstallPackage { directory: String },
    ImportPackage { directory: String },
    SaveExtension(GlobalExtensionSelection),
    RemoveExtension { id: String },
    RestoreDefaults,
    /// The package is removed, and kept from coming back where it is one that
    /// comes by itself.
    RemovePackage { id: String, opt_out: Option<String> },
    RegisterInspector(ArtifactInspectorRegistration),
    /// The session is bound to these plugins. What an extension kept of the
    /// session is dropped where that is told.
    BindPlugins {
        session_id: EntityId,
        plugins: Vec<PluginPin>,
        reset: Option<String>,
        warning: Option<CompatibilityWarning>,
    },
    CreateSession { configuration: Box<SessionConfiguration>, greeting_index: usize },
    CreateBranch {
        session_id: EntityId,
        source_branch_id: EntityId,
        at_turn_id: Option<EntityId>,
        greeting_index: usize,
    },
    PatchPromptOrder {
        session_id: Option<EntityId>,
        revision_hash: ContentHash,
        character_id: Option<u64>,
        changes: Vec<(String, bool)>,
    },
    OverridePromptOrder { session_id: EntityId, overrides: Vec<(String, bool)> },
}

/// The package of an identity, version and digest, from place `i` of a listing
/// on.
pub open spec fn package_from(
    listing: Seq<InstalledPlugin>,
    id: Seq<char>,
    version: Seq<char>,
    digest: Seq<u8>,
    i: int,
) -> Option<InstalledPlugin>
    decreases listing.len() - i,
{
    if i < 0 || i >= listing.len() {
        None
    } else if is_pinned(listing[i], id, version, digest) {
        Some(listing[i])
    } else {
        package_from(listing, id, version, digest, i + 1)
    }
}

/// The package that is installed under an identity, version and digest.
pub open spec fn package_of(
    listing: Seq<InstalledPlugin>,
    id: Seq<char>,
    version: Seq<char>,
    digest: Seq<u8>,
) -> Option<InstalledPlugin> {
    package_from(listing, id, version, digest, 0)
}

proof fn lemma_package_none(
    listing: Seq<InstalledPlugin>,
    id: Seq<char>,
    version: Seq<char>,
    digest: Seq<u8>,
    i: int,
)
    requires
        0 <= i <= listing.len(),
        forall|j: int| i <= j < listing.len() ==> !is_pinned(#[trigger] listing[j], id, version, digest),
    ensures
        package_from(listing, id, version, digest, i) is None,
    decreases listing.len() - i,
{
    if i < listing.len() {
        lemma_package_none(listing, id, version, digest, i + 1);
    }
}

proof fn lemma_package_at(
    listing: Seq<InstalledPlugin>,
    id: Seq<char>,
    version: Seq<char>,
    digest: Seq<u8>,
    i: int,
    k: int,
)
    requires
        0 <= i <= k < listing.len(),
        is_pinned(listing[k], id, version, digest),
        forall|j: int| i <= j < k ==> !is_pinned(#[trigger] listing[j], id, version, digest),
    ensures
        package_from(listing, id, version, digest, i) == Some(listing[k]),
    decreases k - i,
{
    if i < k {
        lemma_package_at(listing, id, version, digest, i + 1, k);
    }
}

/// The first package of a listing is the one that is installed.
pub proof fn lemma_first_pinned(
    found: Option<InstalledPlugin>,
    listing: Seq<InstalledPlugin>,
    id: Seq<char>,
    version: Seq<char>,
    digest: Seq<u8>,
)
    requires
        is_first_pinned(found, listing, id, version, digest),
    ensures
        found == package_of(listing, id, version, digest),
{
    match found {
        Some(plugin) => {
            let k = choose|k: int|
                0 <= k < listing.len() && plugin == #[trigger] listing[k] && is_pinned(
                    listing[k],
                    id,
                    version,
                    digest,
                ) && forall|j: int|
                    0 <= j < k ==> !is_pinned(#[trigger] listing[j], id, version, digest);
            lemma_package_at(listing, id, version, digest, 0, k);
        },
        None => {
            lemma_package_none(listing, id, version, digest, 0);
        },
    }
}

/// The package comes with the engine.
pub open spec fn comes_by_itself(id: Seq<char>) -> bool {
    id == DEFAULT_NEMO_DIRECTIVES_PLUGIN_ID@ || id == DEFAULT_MEMORY_EXTENSION_ID@ || id
        == DEFAULT_SILLYTAVERN_CODEC_PLUGIN_ID@
}

/// Whether a package comes with the engine.
pub fn is_default_package(id: &str) -> (r: bool)
    ensures
        r == comes_by_itself(id@),
{
    text::same(id, DEFAULT_NEMO_DIRECTIVES_PLUGIN_ID) || text::same(
        id,
        DEFAULT_MEMORY_EXTENSION_ID,
    ) || text::same(id, DEFAULT_SILLYTAVERN_CODEC_PLUGIN_ID)
}

/// Whether a package that comes with the engine inspects artifacts.
pub fn is_default_inspector(id: &str) -> (r: bool)
    ensures
        r == (comes_by_itself(id@) && id@ != DEFAULT_MEMORY_EXTENSION_ID@),
{
    is_default_package(id) && !text::same(id, DEFAULT_MEMORY_EXTENSION_ID)
}

/// The configuration of the session that a command names, or why there is none.
pub open spec fn selected_configuration(facts: CommandFacts, session_id: EntityId) -> Result<
    SessionConfiguration,
    EngineError,
> {
    match (facts.session, facts.configuration) {
        (None, _) => Err(EngineError::Session(SessionError::SessionNotFound(session_id))),
        (_, None) => Err(EngineError::SelectedSessionConfigurationMissing),
        (_, Some(record)) => Ok(record.configuration),
    }
}

fn select_configuration(
    session: &Option<SessionProjection>,
    configuration: Option<SessionConfigurationRecord>,
    session_id: EntityId,
) -> (r: Result<SessionConfiguration, EngineError>)
    ensures
        r == match (*session, configuration) {
            (None, _) => Err::<SessionConfiguration, EngineError>(
                EngineError::Session(SessionError::SessionNotFound(session_id)),
            ),
            (_, None) => Err(EngineError::SelectedSessionConfigurationMissing),
            (_, Some(record)) => Ok(record.configuration),
        },
{
    if session.is_none() {
        return Err(EngineError::Session(SessionError::SessionNotFound(session_id)));
    }
    match configuration {
        None => Err(EngineError::SelectedSessionConfigurationMissing),
        Some(record) => Ok(record.configuration),
    }
}

/// A session is bound to one plugin more, or to one plugin anew.
pub open spec fn is_binding(
    action: EngineAction,
    session_id: EntityId,
    pins: Seq<PluginPin>,
    pin: PluginPin,
) -> bool {
    action matches EngineAction::BindPlugins { session_id: bound, plugins, reset, warning }
        && bound == session_id && plugins@ == without_pin(pins, pin.id@).push(pin) && reset is None
        && warning is None
}

/// A session is bound to an extension, with a warning where it has had turns
/// without it.
pub open spec fn is_extension_binding(
    action: EngineAction,
    session_id: EntityId,
    configuration: SessionConfiguration,
    pin: PluginPin,
    events: Seq<String>,
) -> bool {
    let pins = configuration.plugins@;
    let late = pin_index(pins, pin.id@, 0) >= pins.len() && has_begun(events);
    action matches EngineAction::BindPlugins { session_id: bound, plugins, reset, warning }
        && bound == session_id && plugins@ == without_pin(pins, pin.id@).push(pin)
        && if late {
        reset == Some(pin.id) && warning is Some && is_adoption_warning(
            warning->0,
            configuration.compatibility_profile@,
            pin,
        )
    } else {
        reset is None && warning is None
    }
}

fn bind_extension(
    session_id: EntityId,
    configuration: SessionConfiguration,
    pin: PluginPin,
    events: &Vec<String>,
) -> (action: EngineAction)
    ensures
        is_extension_binding(action, session_id, configuration, pin, events@),
{
    let id = pin.id.clone();
    let (plugins, warning) = adopt_extension(
        configuration.plugins,
        pin,
        configuration.compatibility_profile.as_str(),
        events,
    );
    let reset: Option<String> = if warning.is_some() {
        Some(id)
    } else {
        None
    };
    EngineAction::BindPlugins { session_id, plugins, reset, warning }
}

/// What becomes of a session whose plugin is switched on or off.
pub open spec fn is_switched(
    r: Result<EngineAction, EngineError>,
    session_id: EntityId,
    pins: Seq<PluginPin>,
    id: String,
    enabled: bool,
    extension_required: bool,
    listing: Seq<InstalledPlugin>,
) -> bool {
    let at = pin_index(pins, id@, 0);
    let installed = if at < pins.len() {
        package_of(listing, id@, pins[at].version@, pins[at].component_hash@)
    } else {
        None
    };
    match switching(pins, id, enabled, extension_required, installed) {
        Err(e) => r == Err::<EngineAction, EngineError>(e),
        Ok(dropped) => r matches Ok(
            EngineAction::BindPlugins { session_id: bound, plugins, reset, warning },
        ) && bound == session_id && plugins@ == pins.update(
            at,
            PluginPin { enabled, ..pins[at] },
        ) && warning is None && reset == if dropped {
            Some(id)
        } else {
            None::<String>
        },
    }
}

fn switch_plugin(
    registry: &PluginRegistry,
    listing: &Vec<InstalledPlugin>,
    session_id: EntityId,
    pins: Vec<PluginPin>,
    id: String,
    enabled: bool,
    extension_required: bool,
) -> (r: Result<EngineAction, EngineError>)
    ensures
        is_switched(r, session_id, pins@, id, enabled, extension_required, listing@),
{
    let mut plugins = pins;
    let at: usize = find_pin_index(&plugins, id.as_str());
    let installed: Option<&InstalledPlugin> = if at < plugins.len() {
        let found = registry.find_pinned(
            listing,
            id.as_str(),
            plugins[at].version.as_str(),
            &plugins[at].component_hash,
        );
        proof {
            let pin = plugins@[at as int];
            let known = match found {
                Some(plugin) => Some(*plugin),
                None => None,
            };
            assert(is_first_pinned(known, listing@, id@, pin.version@, pin.component_hash@));
            lemma_first_pinned(known, listing@, id@, pin.version@, pin.component_hash@);
        }
        found
    } else {
        None
    };
    match set_plugin_enabled(&mut plugins, &id, enabled, extension_required, installed) {
        Err(e) => Err(e),
        Ok(dropped) => {
            let reset: Option<String> = if dropped {
                Some(id)
            } else {
                None
            };
            Ok(EngineAction::BindPlugins { session_id, plugins, reset, warning: None })
        },
    }
}

/// What the engine makes of binding new sessions to an extension.
pub open spec fn is_enabling(
    r: Result<EngineAction, EngineError>,
    package: Option<InstalledPlugin>,
    tier: Seq<PluginCapability>,
    id: String,
    version: String,
    digest: ContentHash,
    settings: Json,
    egress: Vec<EgressAllowance>,
) -> bool {
    match package {
        None => r == Err::<EngineAction, EngineError>(
            EngineError::PluginNotFound { id, version, digest },
        ),
        Some(plugin) => match extension_refusal(plugin.manifest, tier, id) {
            Some(e) => r == Err::<EngineAction, EngineError>(e),
            None => r matches Ok(EngineAction::SaveExtension(selection)) && is_selection(
                selection,
                plugin.manifest,
                settings,
                egress,
            ),
        },
    }
}

/// What the engine makes of a plugin that is to inspect artifacts.
pub open spec fn is_registering(
    r: Result<EngineAction, EngineError>,
    package: Option<InstalledPlugin>,
    id: String,
    version: String,
    digest: ContentHash,
    capabilities: Vec<PluginCapability>,
) -> bool {
    match package {
        None => r == Err::<EngineAction, EngineError>(
            EngineError::PluginNotFound { id, version, digest },
        ),
        Some(plugin) => match r {
            Ok(EngineAction::RegisterInspector(registration)) => is_registration(
                Ok(registration),
                plugin.manifest,
                id,
                capabilities,
            ),
            Ok(_) => false,
            Err(e) => is_registration(Err(e), plugin.manifest, id, capabilities),
        },
    }
}

/// What the engine makes of binding a session to a plugin.
pub open spec fn is_adopting(
    r: Result<EngineAction, EngineError>,
    facts: CommandFacts,
    session_id: EntityId,
    id: String,
    version: String,
    digest: ContentHash,
    capabilities: Seq<PluginCapability>,
    settings: Json,
    egress: Vec<EgressAllowance>,
) -> bool {
    match package_of(facts.listing@, id@, version@, digest@) {
        None => r == Err::<EngineAction, EngineError>(
            EngineError::PluginNotFound { id, version, digest },
        ),
        Some(plugin) => if !within(capabilities, plugin.manifest.requested_capabilities@) {
            r == Err::<EngineAction, EngineError>(EngineError::PluginGrantExceeded)
        } else {
            match selected_configuration(facts, session_id) {
                Err(e) => r == Err::<EngineAction, EngineError>(e),
                Ok(configuration) => r matches Ok(action) && exists|pin: PluginPin|
                    #[trigger] is_adopted_pin(
                        pin,
                        plugin.manifest,
                        id,
                        capabilities,
                        settings,
                        egress,
                    ) && is_binding(action, session_id, configuration.plugins@, pin),
            }
        },
    }
}

/// What the engine makes of binding a session to an extension.
pub open spec fn is_extending(
    r: Result<EngineAction, EngineError>,
    facts: CommandFacts,
    session_id: EntityId,
    id: String,
    version: String,
    digest: ContentHash,
    settings: Json,
    egress: Vec<EgressAllowance>,
) -> bool {
    match package_of(facts.listing@, id@, version@, digest@) {
        None => r == Err::<EngineAction, EngineError>(
            EngineError::PluginNotFound { id, version, digest },
        ),
        Some(plugin) => match extension_refusal(plugin.manifest, facts.tier@, id) {
            Some(e) => r == Err::<EngineAction, EngineError>(e),
            None => match selected_configuration(facts, session_id) {
                Err(e) => r == Err::<EngineAction, EngineError>(e),
                Ok(configuration) => r matches Ok(action) && exists|pin: PluginPin|
                    #[trigger] is_adopted_pin(
                        pin,
                        plugin.manifest,
                        id,
                        facts.tier@,
                        settings,
                        egress,
                    ) && is_extension_binding(
                        action,
                        session_id,
                        configuration,
                        pin,
                        facts.events@,
                    ),
            },
        },
    }
}

/// What the engine makes of switching an extension of a session on or off. One
/// that the session is not bound to is bound to it where new sessions are.
pub open spec fn is_extension_switched(
    r: Result<EngineAction, EngineError>,
    facts: CommandFacts,
    session_id: EntityId,
    id: String,
    enabled: bool,
) -> bool {
    match selected_configuration(facts, session_id) {
        Err(e) => r == Err::<EngineAction, EngineError>(e),
        Ok(configuration) => {
            let pins = configuration.plugins@;
            if pin_index(pins, id@, 0) < pins.len() {
                is_switched(r, session_id, pins, id, enabled, true, facts.listing@)
            } else if !enabled {
                r == Err::<EngineAction, EngineError>(EngineError::PluginNotPinned(id))
            } else {
                exists|resolved: Result<PluginPin, ConfigError>|
                    #[trigger] is_enabled_resolution(resolved, facts, id) && match resolved {
                        Err(e) => r == Err::<EngineAction, EngineError>(EngineError::Config(e)),
                        Ok(pin) => r matches Ok(action) && is_extension_binding(
                            action,
                            session_id,
                            configuration,
                            pin,
                            facts.events@,
                        ),
                    }
            }
        },
    }
}

/// What an extension that new sessions are bound to resolves to.
pub open spec fn is_enabled_resolution(
    resolved: Result<PluginPin, ConfigError>,
    facts: CommandFacts,
    id: String,
) -> bool {
    match assoc::lookup(facts.config.enabled_extensions@, id@) {
        None => resolved == Err::<PluginPin, ConfigError>(
            ConfigError::EnabledExtensionNotConfigured(id),
        ),
        Some(pin) => is_listed_resolution(resolved, facts.listing@, facts.tier@, (id, pin)),
    }
}

/// What the engine makes of bringing a plugin of a session to another package.
pub open spec fn is_upgrading(
    r: Result<EngineAction, EngineError>,
    facts: CommandFacts,
    session_id: EntityId,
    id: String,
    version: String,
    digest: ContentHash,
) -> bool {
    match package_of(facts.listing@, id@, version@, digest@) {
        None => r == Err::<EngineAction, EngineError>(
            EngineError::PluginNotFound { id, version, digest },
        ),
        Some(plugin) => match selected_configuration(facts, session_id) {
            Err(e) => r == Err::<EngineAction, EngineError>(e),
            Ok(configuration) => {
                let pins = configuration.plugins@;
                let at = pin_index(pins, id@, 0);
                if at >= pins.len() {
                    r == Err::<EngineAction, EngineError>(EngineError::PluginNotPinned(id))
                } else if !within(
                    pins[at].capabilities@,
                    plugin.manifest.requested_capabilities@,
                ) {
                    r == Err::<EngineAction, EngineError>(EngineError::PluginUpgradeGrantExceeded)
                } else {
                    r matches Ok(
                        EngineAction::BindPlugins { session_id: bound, plugins, reset, warning },
                    ) && bound == session_id && reset is None && warning is None && plugins@
                        == pins.update(
                        at,
                        PluginPin {
                            version: plugin.manifest.version,
                            component_hash: plugin.manifest.component_sha256,
                            ..pins[at]
                        },
                    )
                }
            },
        },
    }
}

/// What the engine makes of a new session: it starts with the enabled extensions
/// that its configuration does not name, and then with those that it names.
pub open spec fn is_creating(
    r: Result<EngineAction, EngineError>,
    facts: CommandFacts,
    configuration: SessionConfiguration,
    greeting_index: usize,
) -> bool {
    let entries = facts.config.enabled_extensions@;
    match r {
        Ok(EngineAction::CreateSession { configuration: made, greeting_index: at }) => {
            &&& at == greeting_index
            &&& exists|enabled: Seq<PluginPin>|
                #[trigger] are_enabled_pins(enabled, entries, facts.listing@, facts.tier@)
                    && made.plugins@ == pins_beside(
                    enabled,
                    configuration.plugins@,
                    enabled.len() as int,
                ) + configuration.plugins@
            &&& *made == (SessionConfiguration { plugins: made.plugins, ..configuration })
        },
        Ok(_) => false,
        Err(e) => e matches EngineError::Config(refusal) && is_first_refusal(
            refusal,
            entries,
            facts.listing@,
            facts.tier@,
        ),
    }
}

/// What the engine makes of a new branch.
pub open spec fn is_branching(
    r: Result<EngineAction, EngineError>,
    facts: CommandFacts,
    session_id: EntityId,
    source_branch_id: Option<EntityId>,
    at_turn_id: Option<EntityId>,
) -> bool {
    match facts.session {
        None => r == Err::<EngineAction, EngineError>(
            EngineError::Session(SessionError::SessionNotFound(session_id)),
        ),
        Some(session) => {
            let source = match source_branch_id {
                Some(id) => id,
                None => session.root_branch_id,
            };
            match facts.branch {
                None => r == Err::<EngineAction, EngineError>(
                    EngineError::Session(SessionError::BranchNotFound(source)),
                ),
                Some(branch) => r == if branch.session_id != session_id {
                    Err::<EngineAction, EngineError>(
                        EngineError::Session(SessionError::BranchSessionMismatch),
                    )
                } else {
                    Ok(
                        EngineAction::CreateBranch {
                            session_id,
                            source_branch_id: source,
                            at_turn_id,
                            greeting_index: branch.greeting_index,
                        },
                    )
                },
            }
        },
    }
}

/// The configuration of the session that a command names, or why there is none,
/// for a change of its prompts.
pub open spec fn current_configuration(facts: CommandFacts, session_id: EntityId) -> Result<
    SessionConfiguration,
    EngineError,
> {
    match (facts.session, facts.configuration) {
        (None, _) => Err(EngineError::Session(SessionError::SessionNotFound(session_id))),
        (Some(session), None) => Err(
            EngineError::Session(SessionError::ConfigurationNotFound(session.current_config_hash)),
        ),
        (_, Some(record)) => Ok(record.configuration),
    }
}

/// The configuration of a session, or why there is none.
pub fn find_configuration<'a>(
    session: &Option<SessionProjection>,
    configuration: &'a Option<SessionConfigurationRecord>,
    session_id: EntityId,
) -> (r: Result<&'a SessionConfiguration, EngineError>)
    ensures
        match (r, *session, *configuration) {
            (Err(e), None, _) => e == EngineError::Session(
                SessionError::SessionNotFound(session_id),
            ),
            (Err(e), Some(s), None) => e == EngineError::Session(
                SessionError::ConfigurationNotFound(s.current_config_hash),
            ),
            (Ok(found), Some(_), Some(record)) => *found == record.configuration,
            _ => false,
        },
{
    match session {
        None => Err(EngineError::Session(SessionError::SessionNotFound(session_id))),
        Some(s) => match configuration {
            None => Err(
                EngineError::Session(SessionError::ConfigurationNotFound(s.current_config_hash)),
            ),
            Some(record) => Ok(&record.configuration),
        },
    }
}

/// What the engine makes of a change of a preset's prompt order.
pub open spec fn is_reordering(
    r: Result<EngineAction, EngineError>,
    facts: CommandFacts,
    session_id: Option<EntityId>,
    revision_hash: ContentHash,
    character_id: Option<u64>,
    changes: Vec<(String, bool)>,
) -> bool {
    let patch = Ok::<EngineAction, EngineError>(
        EngineAction::PatchPromptOrder { session_id, revision_hash, character_id, changes },
    );
    match session_id {
        None => r == patch,
        Some(id) => match current_configuration(facts, id) {
            Err(e) => r == Err::<EngineAction, EngineError>(e),
            Ok(configuration) => r == if optional_hash(configuration.prompt_preset_revision)
                == Some(revision_hash@) {
                patch
            } else {
                Err(EngineError::PromptPresetNotPinned(id))
            },
        },
    }
}

/// What the engine makes of a prompt that a session switches on or off.
pub open spec fn is_overriding(
    r: Result<EngineAction, EngineError>,
    facts: CommandFacts,
    session_id: EntityId,
    identifier: String,
    enabled: Option<bool>,
) -> bool {
    match current_configuration(facts, session_id) {
        Err(e) => r == Err::<EngineAction, EngineError>(e),
        Ok(_) => r matches Ok(EngineAction::OverridePromptOrder { session_id: bound, overrides })
            && bound == session_id && overrides@ == match enabled {
            Some(value) => assoc::with_entry(facts.overrides@, identifier, value),
            None => assoc::without_entry(facts.overrides@, identifier@),
        },
    }
}

/// What the engine makes of removing a plugin.
pub open spec fn is_removing(
    r: Result<EngineAction, EngineError>,
    engine: StcliEngine,
    facts: CommandFacts,
    plugin_id: String,
) -> bool {
    if facts.pinned || uses_codec(facts.provenances@, plugin_id@) {
        r == Err::<EngineAction, EngineError>(EngineError::PluginInUse(plugin_id))
    } else {
        r matches Ok(EngineAction::RemovePackage { id, opt_out }) && id == plugin_id
            && match opt_out {
            Some(path) => comes_by_itself(plugin_id@) && path@ == opt_out_path(
                engine.database@,
                plugin_id@,
            ),
            None => !comes_by_itself(plugin_id@),
        }
    }
}

/// What the engine makes of a command.
pub open spec fn is_decided(
    r: Result<EngineAction, EngineError>,
    engine: StcliEngine,
    command: EngineCommand,
    facts: CommandFacts,
) -> bool {
    match command {
        EngineCommand::InstallPlugin { directory } => r == Ok::<EngineAction, EngineError>(
            EngineAction::InstallPackage { directory },
        ),
        EngineCommand::ImportExtension { directory } => r == Ok::<EngineAction, EngineError>(
            EngineAction::ImportPackage { directory },
        ),
        EngineCommand::EnableGlobalExtension { id, version, digest, settings, egress } =>
            is_enabling(
                r,
                package_of(facts.listing@, id@, version@, digest@),
                facts.tier@,
                id,
                version,
                digest,
                settings,
                egress,
            ),
        EngineCommand::DisableGlobalExtension { id } => r == Ok::<EngineAction, EngineError>(
            EngineAction::RemoveExtension { id },
        ),
        EngineCommand::RestoreDefaultPlugins => r == Ok::<EngineAction, EngineError>(
            EngineAction::RestoreDefaults,
        ),
        EngineCommand::RemovePlugin { plugin_id } => is_removing(r, engine, facts, plugin_id),
        EngineCommand::RegisterArtifactInspector { id, version, digest, capabilities } =>
            is_registering(
                r,
                package_of(facts.listing@, id@, version@, digest@),
                id,
                version,
                digest,
                capabilities,
            ),
        EngineCommand::AdoptPlugin {
            session_id,
            id,
            version,
            digest,
            capabilities,
            settings,
            egress,
        } => is_adopting(
            r,
            facts,
            session_id,
            id,
            version,
            digest,
            capabilities@,
            settings,
            egress,
        ),
        EngineCommand::AdoptExtension { session_id, id, version, digest, settings, egress } =>
            is_extending(r, facts, session_id, id, version, digest, settings, egress),
        EngineCommand::SetExtensionEnabled { session_id, id, enabled } => is_extension_switched(
            r,
            facts,
            session_id,
            id,
            enabled,
        ),
        EngineCommand::SetPluginEnabled { session_id, id, enabled } =>
            match selected_configuration(facts, session_id) {
                Err(e) => r == Err::<EngineAction, EngineError>(e),
                Ok(configuration) => is_switched(
                    r,
                    session_id,
                    configuration.plugins@,
                    id,
                    enabled,
                    false,
                    facts.listing@,
                ),
            },
        EngineCommand::UpgradePlugin { session_id, id, version, digest } => is_upgrading(
            r,
            facts,
            session_id,
            id,
            version,
            digest,
        ),
        EngineCommand::CreateSession { configuration, greeting_index } => is_creating(
            r,
            facts,
            *configuration,
            greeting_index,
        ),
        EngineCommand::CreateBranch { session_id, source_branch_id, at_turn_id } => is_branching(
            r,
            facts,
            session_id,
            source_branch_id,
            at_turn_id,
        ),
        EngineCommand::UpdatePromptOrder { session_id, revision_hash, character_id, changes } =>
            is_reordering(r, facts, session_id, revision_hash, character_id, changes),
        EngineCommand::UpdatePromptOrderOverride { session_id, identifier, enabled } =>
            is_overriding(r, facts, session_id, identifier, enabled),
        EngineCommand::Rerun { session_id, attempt_id } => r == match facts.attempt_session {
            None => Err::<EngineAction, EngineError>(
                EngineError::Turn(TurnError::AttemptNotFound(attempt_id)),
            ),
            Some(other) => if other == session_id {
                Ok(EngineAction::Delegate(command))
            } else {
                Err(EngineError::AttemptSessionMismatch)
            },
        },
        _ => r == Ok::<EngineAction, EngineError>(EngineAction::Delegate(command)),
    }
}

/// The package that is installed under an identity, version and digest.
pub fn find_package<'a>(
    registry: &PluginRegistry,
    listing: &'a Vec<InstalledPlugin>,
    id: &String,
    version: &String,
    digest: &ContentHash,
) -> (r: Result<&'a InstalledPlugin, EngineError>)
    ensures
        match (r, package_of(listing@, id@, version@, digest@)) {
            (Ok(plugin), Some(package)) => *plugin == package,
            (Err(e), None) => e == (EngineError::PluginNotFound {
                id: *id,
                version: *version,
                digest: *digest,
            }),
            _ => false,
        },
{
    let found = installed_plugin(registry, listing, id, version, digest);
    proof {
        let known = match found {
            Ok(plugin) => Some(*plugin),
            Err(_) => None,
        };
        lemma_first_pinned(known, listing@, id@, version@, digest@);
    }
    found
}

fn remove_package(engine: &StcliEngine, facts: &CommandFacts, plugin_id: String) -> (r: Result<
    EngineAction,
    EngineError,
>)
    ensures
        is_removing(r, *engine, *facts, plugin_id),
{
    let codec_used = artifact_codec_plugin_in_use(&facts.provenances, plugin_id.as_str());
    match check_removable(plugin_id, facts.pinned, codec_used) {
        Err(e) => Err(e),
        Ok(id) => {
            let opt_out: Option<String> = if is_default_package(id.as_str()) {
                Some(engine.default_opt_out(id.as_str()))
            } else {
                None
            };
            Ok(EngineAction::RemovePackage { id, opt_out })
        },
    }
}

fn bind_plugin(
    session_id: EntityId,
    configuration: SessionConfiguration,
    pin: PluginPin,
) -> (action: EngineAction)
    ensures
        is_binding(action, session_id, configuration.plugins@, pin),
{
    EngineAction::BindPlugins {
        session_id,
        plugins: adopt_plugin(configuration.plugins, pin),
        reset: None,
        warning: None,
    }
}

fn switch_extension(
    registry: &PluginRegistry,
    facts: CommandFacts,
    session_id: EntityId,
    id: String,
    enabled: bool,
) -> (r: Result<EngineAction, EngineError>)
    ensures
        is_extension_switched(r, facts, session_id, id, enabled),
{
    let configuration = match select_configuration(&facts.session, facts.configuration, session_id) {
        Ok(configuration) => configuration,
        Err(e) => return Err(e),
    };
    if find_pin_index(&configuration.plugins, id.as_str()) < configuration.plugins.len() {
        return switch_plugin(
            registry,
            &facts.listing,
            session_id,
            configuration.plugins,
            id,
            enabled,
            true,
        );
    }
    if !enabled {
        return Err(EngineError::PluginNotPinned(id));
    }
    let resolved = facts.config.resolve_enabled_extension(
        registry,
        &facts.listing,
        &facts.tier,
        &id,
    );
    proof {
        assert(is_enabled_resolution(resolved, facts, id));
    }
    match resolved {
        Err(e) => Err(EngineError::Config(e)),
        Ok(pin) => Ok(bind_extension(session_id, configuration, pin, &facts.events)),
    }
}

fn create_session(
    registry: &PluginRegistry,
    facts: &CommandFacts,
    configuration: SessionConfiguration,
    greeting_index: usize,
) -> (r: Result<EngineAction, EngineError>)
    ensures
        is_creating(r, *facts, configuration, greeting_index),
{
    match facts.config.resolve_enabled_extensions(registry, &facts.listing, &facts.tier) {
        Err(e) => Err(EngineError::Config(e)),
        Ok(enabled) => {
            let ghost pins = enabled@;
            let made = SessionConfiguration {
                compatibility_profile: configuration.compatibility_profile,
                character_revision: configuration.character_revision,
                lorebook_revisions: configuration.lorebook_revisions,
                prompt_preset_revision: configuration.prompt_preset_revision,
                plugins: starting_pins(enabled, configuration.plugins),
                value: configuration.value,
            };
            proof {
                assert(are_enabled_pins(
                    pins,
                    facts.config.enabled_extensions@,
                    facts.listing@,
                    facts.tier@,
                ));
            }
            Ok(EngineAction::CreateSession { configuration: Box::new(made), greeting_index })
        },
    }
}

fn create_branch(
    facts: &CommandFacts,
    session_id: EntityId,
    source_branch_id: Option<EntityId>,
    at_turn_id: Option<EntityId>,
) -> (r: Result<EngineAction, EngineError>)
    ensures
        is_branching(r, *facts, session_id, source_branch_id, at_turn_id),
{
    let source = match &facts.session {
        None => return Err(EngineError::Session(SessionError::SessionNotFound(session_id))),
        Some(session) => source_branch(session, source_branch_id),
    };
    match &facts.branch {
        None => Err(EngineError::Session(SessionError::BranchNotFound(source))),
        Some(branch) => if branch.session_id != session_id {
            Err(EngineError::Session(SessionError::BranchSessionMismatch))
        } else {
            Ok(
                EngineAction::CreateBranch {
                    session_id,
                    source_branch_id: source,
                    at_turn_id,
                    greeting_index: branch.greeting_index,
                },
            )
        },
    }
}

impl StcliEngine {
    /// Decides what a command comes to: what is left to do, or why it is refused.
    pub fn execute(&self, command: EngineCommand, facts: CommandFacts) -> (r: Result<
        EngineAction,
        EngineError,
    >)
        requires
            assoc::ascending(facts.overrides@),
        ensures
            is_decided(r, *self, command, facts),
    {
        let registry = PluginRegistry::new(self.plugin_root());
        match command {
            EngineCommand::InstallPlugin { directory } => Ok(
                EngineAction::InstallPackage { directory },
            ),
            EngineCommand::ImportExtension { directory } => Ok(
                EngineAction::ImportPackage { directory },
            ),
            EngineCommand::EnableGlobalExtension { id, version, digest, settings, egress } => {
                let plugin = match find_package(&registry, &facts.listing, &id, &version, &digest) {
                    Ok(plugin) => plugin,
                    Err(e) => return Err(e),
                };
                match enable_global_extension(
                    &plugin.manifest,
                    &facts.tier,
                    &id,
                    settings,
                    egress,
                ) {
                    Ok(selection) => Ok(EngineAction::SaveExtension(selection)),
                    Err(e) => Err(e),
                }
            },
            EngineCommand::DisableGlobalExtension { id } => Ok(
                EngineAction::RemoveExtension { id },
            ),
            EngineCommand::RestoreDefaultPlugins => Ok(EngineAction::RestoreDefaults),
            EngineCommand::RemovePlugin { plugin_id } => remove_package(self, &facts, plugin_id),
            EngineCommand::RegisterArtifactInspector { id, version, digest, capabilities } => {
                let plugin = match find_package(&registry, &facts.listing, &id, &version, &digest) {
                    Ok(plugin) => plugin,
                    Err(e) => return Err(e),
                };
                match register_artifact_inspector(&plugin.manifest, id, capabilities) {
                    Ok(registration) => Ok(EngineAction::RegisterInspector(registration)),
                    Err(e) => Err(e),
                }
            },
            EngineCommand::AdoptPlugin {
                session_id,
                id,
                version,
                digest,
                capabilities,
                settings,
                egress,
            } => {
                let plugin = match find_package(&registry, &facts.listing, &id, &version, &digest) {
                    Ok(plugin) => plugin,
                    Err(e) => return Err(e),
                };
                let pin = match plugin_pin(&plugin.manifest, id, capabilities, settings, egress) {
                    Ok(pin) => pin,
                    Err(e) => return Err(e),
                };
                match select_configuration(&facts.session, facts.configuration, session_id) {
                    Ok(configuration) => Ok(bind_plugin(session_id, configuration, pin)),
                    Err(e) => Err(e),
                }
            },
            EngineCommand::AdoptExtension { session_id, id, version, digest, settings, egress } => {
                let plugin = match find_package(&registry, &facts.listing, &id, &version, &digest) {
                    Ok(plugin) => plugin,
                    Err(e) => return Err(e),
                };
                let pin = match extension_pin(
                    &plugin.manifest,
                    &facts.tier,
                    id,
                    settings,
                    egress,
                ) {
                    Ok(pin) => pin,
                    Err(e) => return Err(e),
                };
                match select_configuration(&facts.session, facts.configuration, session_id) {
                    Ok(configuration) => Ok(
                        bind_extension(session_id, configuration, pin, &facts.events),
                    ),
                    Err(e) => Err(e),
                }
            },
            EngineCommand::SetExtensionEnabled { session_id, id, enabled } => switch_extension(
                &registry,
                facts,
                session_id,
                id,
                enabled,
            ),
            EngineCommand::SetPluginEnabled { session_id, id, enabled } => {
                match select_configuration(&facts.session, facts.configuration, session_id) {
                    Ok(configuration) => switch_plugin(
                        &registry,
                        &facts.listing,
                        session_id,
                        configuration.plugins,
                        id,
                        enabled,
                        false,
                    ),
                    Err(e) => Err(e),
                }
            },
            EngineCommand::UpgradePlugin { session_id, id, version, digest } => {
                let plugin = match find_package(&registry, &facts.listing, &id, &version, &digest) {
                    Ok(plugin) => plugin,
                    Err(e) => return Err(e),
                };
                let mut plugins = match select_configuration(
                    &facts.session,
                    facts.configuration,
                    session_id,
                ) {
                    Ok(configuration) => configuration.plugins,
                    Err(e) => return Err(e),
                };
                match upgrade_plugin(&mut plugins, &id, &plugin.manifest) {
                    Ok(()) => Ok(
                        EngineAction::BindPlugins {
                            session_id,
                            plugins,
                            reset: None,
                            warning: None,
                        },
                    ),
                    Err(e) => Err(e),
                }
            },
            EngineCommand::CreateSession { configuration, greeting_index } => create_session(
                &registry,
                &facts,
                *configuration,
                greeting_index,
            ),
            EngineCommand::CreateBranch { session_id, source_branch_id, at_turn_id } =>
                create_branch(&facts, session_id, source_branch_id, at_turn_id),
            EngineCommand::UpdatePromptOrder {
                session_id,
                revision_hash,
                character_id,
                changes,
            } => {
                if let Some(id) = session_id {
                    match find_configuration(&facts.session, &facts.configuration, id) {
                        Ok(configuration) => match check_preset_pinned(
                            id,
                            &configuration.prompt_preset_revision,
                            &revision_hash,
                        ) {
                            Ok(()) => {},
                            Err(e) => return Err(e),
                        },
                        Err(e) => return Err(e),
                    }
                }
                Ok(
                    EngineAction::PatchPromptOrder {
                        session_id,
                        revision_hash,
                        character_id,
                        changes,
                    },
                )
            },
            EngineCommand::UpdatePromptOrderOverride { session_id, identifier, enabled } => {
                match find_configuration(&facts.session, &facts.configuration, session_id) {
                    Ok(_) => {},
                    Err(e) => return Err(e),
                }
                let mut overrides = facts.overrides;
                override_prompt_order(&mut overrides, identifier, enabled);
                Ok(EngineAction::OverridePromptOrder { session_id, overrides })
            },
            EngineCommand::Rerun { session_id, attempt_id } => match facts.attempt_session {
                None => Err(EngineError::Turn(TurnError::AttemptNotFound(attempt_id))),
                Some(other) => if other == session_id {
                    Ok(EngineAction::Delegate(EngineCommand::Rerun { session_id, attempt_id }))
                } else {
                    Err(EngineError::AttemptSessionMismatch)
                },
            },
            other => Ok(EngineAction::Delegate(other)),
        }
    }
}

/// The registration of a package that comes with the engine, where it inspects
/// artifacts: it is granted all that it asks for.
pub open spec fn is_default_registration(
    registration: Option<ArtifactInspectorRegistration>,
    manifest: PluginManifest,
) -> bool {
    match registration {
        Some(given) => {
            &&& comes_by_itself(manifest.id@) && manifest.id@ != DEFAULT_MEMORY_EXTENSION_ID@
            &&& given.id == manifest.id
            &&& given.version == manifest.version
            &&& given.component_sha256 == manifest.component_sha256
            &&& given.capabilities@ == manifest.requested_capabilities@
        },
        None => !comes_by_itself(manifest.id@) || manifest.id@ == DEFAULT_MEMORY_EXTENSION_ID@,
    }
}

/// The registration of a package that comes with the engine, where it inspects
/// artifacts.
pub fn default_registration(manifest: &PluginManifest) -> (registration: Option<
    ArtifactInspectorRegistration,
>)
    ensures
        is_default_registration(registration, *manifest),
{
    if !is_default_inspector(manifest.id.as_str()) {
        return None;
    }
    Some(
        ArtifactInspectorRegistration {
            id: manifest.id.clone(),
            version: manifest.version.clone(),
            component_sha256: manifest.component_sha256,
            capabilities: copy_capabilities(&manifest.requested_capabilities),
        },
    )
}

/// Two registrations say the same. The order of capabilities does not count.
pub open spec fn same_registration(
    left: ArtifactInspectorRegistration,
    right: ArtifactInspectorRegistration,
) -> bool {
    &&& left.id@ == right.id@
    &&& left.version@ == right.version@
    &&& left.component_sha256@ == right.component_sha256@
    &&& within(left.capabilities@, right.capabilities@)
    &&& within(right.capabilities@, left.capabilities@)
}

/// A package that comes with the engine is to be installed: the user does not do
/// without it, and it is not there or not registered as it should be.
pub open spec fn is_wanting(
    opted_out: bool,
    expected: Option<ArtifactInspectorRegistration>,
    registered: Option<ArtifactInspectorRegistration>,
    installed: bool,
) -> bool {
    let known = match (expected, registered) {
        (None, _) => true,
        (Some(_), None) => false,
        (Some(wanted), Some(found)) => same_registration(wanted, found),
    };
    !opted_out && !(known && installed)
}

/// Whether a package that comes with the engine is to be installed.
pub fn needs_installation(
    opted_out: bool,
    expected: &Option<ArtifactInspectorRegistration>,
    registered: &Option<ArtifactInspectorRegistration>,
    installed: bool,
) -> (r: bool)
    ensures
        r == is_wanting(opted_out, *expected, *registered, installed),
{
    if opted_out {
        return false;
    }
    let known = match (expected, registered) {
        (None, _) => true,
        (Some(_), None) => false,
        (Some(wanted), Some(found)) => text::same(wanted.id.as_str(), found.id.as_str())
            && text::same(wanted.version.as_str(), found.version.as_str())
            && wanted.component_sha256.same(&found.component_sha256) && is_within(
            &wanted.capabilities,
            &found.capabilities,
        ) && is_within(&found.capabilities, &wanted.capabilities),
    };
    !(known && installed)
}

/// What restoring the packages that come with the engine tells of: the first
/// package of a listing that reads directives, with inspection switched on.
pub open spec fn is_restored(
    r: Result<InstalledPlugin, EngineError>,
    listing: Seq<InstalledPlugin>,
) -> bool {
    match r {
        Ok(plugin) => exists|i: int|
            {
                &&& 0 <= i < listing.len()
                &&& (#[trigger] listing[i]).manifest.id@ == DEFAULT_NEMO_DIRECTIVES_PLUGIN_ID@
                &&& forall|j: int|
                    0 <= j < i ==> (#[trigger] listing[j]).manifest.id@
                        != DEFAULT_NEMO_DIRECTIVES_PLUGIN_ID@
                &&& plugin.manifest == listing[i].manifest
                &&& plugin.directory == listing[i].directory
                &&& plugin.inspection_enabled
            },
        Err(e) => {
            &&& forall|j: int|
                0 <= j < listing.len() ==> (#[trigger] listing[j]).manifest.id@
                    != DEFAULT_NEMO_DIRECTIVES_PLUGIN_ID@
            &&& e matches EngineError::ArtifactInspectorNotRegistered(id)
            &&& id@ == DEFAULT_NEMO_DIRECTIVES_PLUGIN_ID@
        },
    }
}

/// What restoring the packages that come with the engine tells of, given what is
/// installed then.
pub fn restored_default(listing: Vec<InstalledPlugin>) -> (r: Result<InstalledPlugin, EngineError>)
    ensures
        is_restored(r, listing@),
{
    let mut rest = listing;
    let mut at: usize = 0;
    while at < rest.len()
        invariant
            at <= rest@.len(),
            rest@ == listing@,
            forall|j: int|
                0 <= j < at ==> (#[trigger] listing@[j]).manifest.id@
                    != DEFAULT_NEMO_DIRECTIVES_PLUGIN_ID@,
        decreases rest@.len() - at,
    {
        if text::same(rest[at].manifest.id.as_str(), DEFAULT_NEMO_DIRECTIVES_PLUGIN_ID) {
            let mut found = rest.remove(at);
            found.inspection_enabled = true;
            assert(listing@[at as int].manifest == found.manifest);
            return Ok(found);
        }
        at = at + 1;
    }
    Err(
        EngineError::ArtifactInspectorNotRegistered(
            DEFAULT_NEMO_DIRECTIVES_PLUGIN_ID.to_owned(),
        ),
    )
}

/// A session that a plugin or an extension is adopted into is bound to the
/// package that was named, with no more than that package asks for.
pub proof fn law_adopted_plugins_asked_for_their_grants(
    engine: StcliEngine,
    command: EngineCommand,
    facts: CommandFacts,
    action: EngineAction,
)
    requires
        is_decided(Ok(action), engine, command, facts),
        command is AdoptPlugin || command is AdoptExtension,
    ensures
        ({
            let (id, version, digest) = match command {
                EngineCommand::AdoptPlugin { id, version, digest, .. } => (id, version, digest),
                EngineCommand::AdoptExtension { id, version, digest, .. } => (id, version, digest),
                _ => arbitrary(),
            };
            &&& action is BindPlugins
            &&& package_of(facts.listing@, id@, version@, digest@) matches Some(package)
            &&& action->plugins@.len() > 0
            &&& action->plugins@.last().id == id
            &&& action->plugins@.last().version == package.manifest.version
            &&& action->plugins@.last().component_hash == package.manifest.component_sha256
            &&& within(
                action->plugins@.last().capabilities@,
                package.manifest.requested_capabilities@,
            )
        }),
{
}

/// A plugin that a session is bound to, or that imported an artifact, is not
/// removed.
pub proof fn law_plugins_in_use_stay(
    engine: StcliEngine,
    plugin_id: String,
    facts: CommandFacts,
    r: Result<EngineAction, EngineError>,
)
    requires
        is_decided(r, engine, EngineCommand::RemovePlugin { plugin_id }, facts),
    ensures
        r is Ok <==> !facts.pinned && !uses_codec(facts.provenances@, plugin_id@),
        r is Err ==> r->Err_0 == EngineError::PluginInUse(plugin_id),
{
}

} // verus!
