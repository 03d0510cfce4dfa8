use stcli_core::artifact::kind::{ArtifactError, ArtifactKind};
use stcli_core::artifact::revision::ArtifactRecord;
use stcli_core::artifact_codec::ArtifactCodecProvenance;
use stcli_core::config::{Config, ConfigError, GlobalExtensionPin};
use stcli_core::engine::commands::{
    default_registration, needs_installation, restored_default, CommandFacts, EngineAction,
    EngineCommand, DEFAULT_NEMO_DIRECTIVES_PLUGIN_ID,
};
use stcli_core::engine::interactions::{
    extension_interactions, offer_characters, InteractionScene, PinReading,
};
use stcli_core::engine::plugins::EngineError;
use stcli_core::engine::queries::{
    finish_inspection, inspection_input, AttemptRecord, EngineInspection, EngineQuery, QueryRecords,
};
use stcli_core::engine::sessions::{StcliEngine, TurnOutline};
use stcli_core::engine::submissions::{SaveReply, SubmissionStep, MAX_SUBMISSION_BYTES};
use stcli_core::identity::{ContentHash, EntityId};
use stcli_core::interaction::declaration::{
    load_declaration, Annotation, DeclaredGroup, InteractionSupport, INTERACTION_SCHEMA,
};
use stcli_core::interaction::submission::{
    InteractionEdit, InteractionOutcome, InteractionSubmission,
};
use stcli_core::interaction::surface::InteractionSurface;
use stcli_core::interaction::value::InteractionValue;
use stcli_core::json::{Json, JsonNumber, NumberForm};
use stcli_core::plugin::{
    ArtifactInspectorRegistration, InstalledPlugin, PluginCapability, PluginEffect, PluginError,
    PluginEvent, PluginManifest, PluginRegistry, PluginRuntime, MANIFEST_SCHEMA,
};
use stcli_core::prompt::prune::PromptPruning;
use stcli_core::session::{
    BranchProjection, CandidateOrigin, CandidateProjection, PluginPin, SessionConfiguration,
    SessionConfigurationRecord, SessionError, SessionProjection, TurnProjection,
};
use stcli_core::tokenizer::TokenizerId;
use stcli_core::turn::{PromptPlan, TurnError};

fn order(value: f64) -> i64 {
    if value >= 0.0 {
        value.abs().to_bits() as i64
    } else {
        -((-value).to_bits() as i64)
    }
}

fn convert(value: &serde_json::Value) -> Json {
    match value {
        serde_json::Value::Null => Json::Null,
        serde_json::Value::Bool(b) => Json::Bool(*b),
        serde_json::Value::Number(n) => {
            let form = if let Some(u) = n.as_u64() {
                NumberForm::Unsigned(u)
            } else if let Some(i) = n.as_i64() {
                NumberForm::Negative(i)
            } else {
                NumberForm::Real(n.to_string())
            };
            Json::Number(JsonNumber { form, order: order(n.as_f64().unwrap()) })
        }
        serde_json::Value::String(s) => Json::Text(s.clone()),
        serde_json::Value::Array(items) => Json::Array(items.iter().map(convert).collect()),
        serde_json::Value::Object(members) => {
            Json::Object(members.iter().map(|(k, v)| (k.clone(), convert(v))).collect())
        }
    }
}

fn json(source: &str) -> Json {
    convert(&serde_json::from_str(source).unwrap())
}

fn id(n: u128) -> EntityId {
    EntityId::from_ulid(n)
}

fn hash(n: u8) -> ContentHash {
    ContentHash::new([n; 32])
}

fn manifest(name: &str, runtime: PluginRuntime, asked: Vec<PluginCapability>) -> PluginManifest {
    PluginManifest {
        schema: MANIFEST_SCHEMA.to_owned(),
        id: name.to_owned(),
        version: "1.2.0".to_owned(),
        engine: "*".to_owned(),
        runtime,
        component: "main".to_owned(),
        component_sha256: hash(7),
        dependencies: vec![],
        license: "MIT".to_owned(),
        subscriptions: vec![],
        prompt_slots: vec![],
        commands: vec![],
        macros: vec![],
        settings_schema: None,
        requested_capabilities: asked,
        before: vec![],
        after: vec![],
        generate_interceptor: None,
        display_name: None,
        artifact_codec: None,
    }
}

fn installed(name: &str, runtime: PluginRuntime) -> InstalledPlugin {
    InstalledPlugin {
        manifest: manifest(
            name,
            runtime,
            vec![PluginCapability::ReadSession, PluginCapability::InspectArtifact],
        ),
        directory: format!("/plugins/{name}"),
        inspection_enabled: false,
    }
}

fn pin(name: &str, enabled: bool) -> PluginPin {
    PluginPin {
        id: name.to_owned(),
        version: "1.2.0".to_owned(),
        component_hash: hash(7),
        capabilities: vec![PluginCapability::ReadSession],
        settings: json("{}"),
        egress_allow_list: vec![],
        enabled,
    }
}

fn configuration(plugins: Vec<PluginPin>) -> SessionConfiguration {
    SessionConfiguration {
        compatibility_profile: "sillytavern".to_owned(),
        character_revision: hash(1),
        lorebook_revisions: vec![],
        prompt_preset_revision: Some(hash(4)),
        plugins,
        value: json("{}"),
    }
}

fn session() -> SessionProjection {
    SessionProjection {
        session_id: id(1),
        current_config_hash: hash(2),
        root_branch_id: id(2),
        archived: false,
    }
}

fn facts(plugins: Vec<PluginPin>) -> CommandFacts {
    CommandFacts {
        listing: vec![
            installed("wasm", PluginRuntime::Wasm),
            installed("bridge", PluginRuntime::StBridge),
        ],
        config: Config { providers: vec![], enabled_extensions: vec![] },
        tier: vec![PluginCapability::ReadSession],
        session: Some(session()),
        configuration: Some(SessionConfigurationRecord {
            revision_hash: hash(2),
            configuration: configuration(plugins),
        }),
        overrides: vec![],
        branch: None,
        attempt_session: None,
        events: vec![],
        pinned: false,
        provenances: vec![],
    }
}

fn execute(command: EngineCommand, facts: CommandFacts) -> Result<EngineAction, EngineError> {
    StcliEngine::new("/data/stcli.sqlite3".to_owned()).execute(command, facts)
}

fn adopt(name: &str, capabilities: Vec<PluginCapability>) -> EngineCommand {
    EngineCommand::AdoptPlugin {
        session_id: id(1),
        id: name.to_owned(),
        version: "1.2.0".to_owned(),
        digest: hash(7),
        capabilities,
        settings: json("{}"),
        egress: vec![],
    }
}

fn extend(name: &str) -> EngineCommand {
    EngineCommand::AdoptExtension {
        session_id: id(1),
        id: name.to_owned(),
        version: "1.2.0".to_owned(),
        digest: hash(7),
        settings: json("{}"),
        egress: vec![],
    }
}

#[test]
fn plugins_are_adopted_with_the_grants_they_ask_for() {
    match execute(adopt("wasm", vec![PluginCapability::ReadSession]), facts(vec![pin("wasm", false)]))
        .unwrap()
    {
        EngineAction::BindPlugins { session_id, plugins, reset, warning } => {
            assert_eq!(session_id, id(1));
            assert_eq!(plugins, vec![pin("wasm", true)]);
            assert!(reset.is_none() && warning.is_none());
        }
        other => panic!("{other:?}"),
    }
    assert!(matches!(
        execute(adopt("wasm", vec![PluginCapability::BrokeredEgress]), facts(vec![])),
        Err(EngineError::PluginGrantExceeded)
    ));
    assert!(matches!(
        execute(adopt("none", vec![]), facts(vec![])),
        Err(EngineError::PluginNotFound { id, version, digest })
            if id == "none" && version == "1.2.0" && digest == hash(7)
    ));
    let mut lost = facts(vec![]);
    lost.session = None;
    assert!(matches!(
        execute(adopt("wasm", vec![]), lost),
        Err(EngineError::Session(SessionError::SessionNotFound(session))) if session == id(1)
    ));
    let mut bare = facts(vec![]);
    bare.configuration = None;
    assert!(matches!(
        execute(adopt("wasm", vec![]), bare),
        Err(EngineError::SelectedSessionConfigurationMissing)
    ));
}

#[test]
fn extensions_adopted_late_are_warned_about() {
    let mut begun = facts(vec![]);
    begun.events = vec!["session.created".to_owned(), "turn.created".to_owned()];
    match execute(extend("bridge"), begun).unwrap() {
        EngineAction::BindPlugins { plugins, reset, warning, .. } => {
            assert_eq!(plugins, vec![pin("bridge", true)]);
            assert_eq!(reset.as_deref(), Some("bridge"));
            let warning = warning.unwrap();
            assert_eq!(warning.code, "extension-adopted-mid-session");
            assert_eq!(warning.profile_id, "sillytavern");
            assert_eq!(warning.affected_identifiers, vec!["bridge".to_owned()]);
        }
        other => panic!("{other:?}"),
    }
    match execute(extend("bridge"), facts(vec![])).unwrap() {
        EngineAction::BindPlugins { reset, warning, .. } => {
            assert!(reset.is_none() && warning.is_none());
        }
        other => panic!("{other:?}"),
    }
    assert!(matches!(
        execute(extend("wasm"), facts(vec![])),
        Err(EngineError::ExtensionRuntimeRequired(id)) if id == "wasm"
    ));
    let mut wide = facts(vec![]);
    wide.tier = vec![PluginCapability::BrokeredEgress];
    assert!(matches!(execute(extend("bridge"), wide), Err(EngineError::PluginGrantExceeded)));
}

fn switch(name: &str, enabled: bool) -> EngineCommand {
    EngineCommand::SetExtensionEnabled { session_id: id(1), id: name.to_owned(), enabled }
}

#[test]
fn extensions_are_switched() {
    match execute(switch("bridge", false), facts(vec![pin("bridge", true)])).unwrap() {
        EngineAction::BindPlugins { plugins, reset, .. } => {
            assert_eq!(plugins, vec![pin("bridge", false)]);
            assert_eq!(reset.as_deref(), Some("bridge"));
        }
        other => panic!("{other:?}"),
    }
    assert!(matches!(
        execute(switch("wasm", true), facts(vec![pin("wasm", false)])),
        Err(EngineError::ExtensionRuntimeRequired(id)) if id == "wasm"
    ));
    assert!(matches!(
        execute(switch("bridge", false), facts(vec![])),
        Err(EngineError::PluginNotPinned(id)) if id == "bridge"
    ));
    assert!(matches!(
        execute(switch("bridge", true), facts(vec![])),
        Err(EngineError::Config(ConfigError::EnabledExtensionNotConfigured(id))) if id == "bridge"
    ));
    let mut known = facts(vec![]);
    known.config.enabled_extensions = vec![("bridge".to_owned(), global())];
    match execute(switch("bridge", true), known).unwrap() {
        EngineAction::BindPlugins { plugins, .. } => assert_eq!(plugins, vec![pin("bridge", true)]),
        other => panic!("{other:?}"),
    }
}

fn global() -> GlobalExtensionPin {
    GlobalExtensionPin {
        version: "1.2.0".to_owned(),
        digest: hash(7),
        settings: json("{}"),
        egress_allow_list: vec![],
    }
}

#[test]
fn plugins_are_switched() {
    let off =
        EngineCommand::SetPluginEnabled { session_id: id(1), id: "gone".to_owned(), enabled: false };
    match execute(off, facts(vec![pin("gone", true)])).unwrap() {
        EngineAction::BindPlugins { plugins, reset, .. } => {
            assert_eq!(plugins, vec![pin("gone", false)]);
            assert!(reset.is_none());
        }
        other => panic!("{other:?}"),
    }
    let on =
        EngineCommand::SetPluginEnabled { session_id: id(1), id: "gone".to_owned(), enabled: true };
    assert!(matches!(
        execute(on, facts(vec![pin("gone", false)])),
        Err(EngineError::PluginNotFound { id, .. }) if id == "gone"
    ));
}

#[test]
fn plugins_are_upgraded_within_their_grants() {
    let upgrade = || EngineCommand::UpgradePlugin {
        session_id: id(1),
        id: "wasm".to_owned(),
        version: "1.2.0".to_owned(),
        digest: hash(7),
    };
    let mut old = pin("wasm", true);
    old.version = "1.0.0".to_owned();
    old.component_hash = hash(6);
    match execute(upgrade(), facts(vec![old.clone()])).unwrap() {
        EngineAction::BindPlugins { plugins, .. } => assert_eq!(plugins, vec![pin("wasm", true)]),
        other => panic!("{other:?}"),
    }
    old.capabilities = vec![PluginCapability::BrokeredEgress];
    assert!(matches!(
        execute(upgrade(), facts(vec![old])),
        Err(EngineError::PluginUpgradeGrantExceeded)
    ));
    assert!(matches!(
        execute(upgrade(), facts(vec![])),
        Err(EngineError::PluginNotPinned(id)) if id == "wasm"
    ));
}

#[test]
fn plugins_in_use_stay() {
    let remove = |name: &str| EngineCommand::RemovePlugin { plugin_id: name.to_owned() };
    match execute(remove("wasm"), facts(vec![])).unwrap() {
        EngineAction::RemovePackage { id, opt_out } => {
            assert_eq!(id, "wasm");
            assert!(opt_out.is_none());
        }
        other => panic!("{other:?}"),
    }
    match execute(remove("memory"), facts(vec![])).unwrap() {
        EngineAction::RemovePackage { opt_out, .. } => assert!(opt_out.is_some()),
        other => panic!("{other:?}"),
    }
    let mut pinned = facts(vec![]);
    pinned.pinned = true;
    assert!(matches!(
        execute(remove("wasm"), pinned),
        Err(EngineError::PluginInUse(id)) if id == "wasm"
    ));
    let mut used = facts(vec![]);
    used.provenances = vec![ArtifactCodecProvenance {
        plugin_id: "wasm".to_owned(),
        version: "1.2.0".to_owned(),
        component_sha256: hash(7),
        interface_version: "1".to_owned(),
        format: "card".to_owned(),
        compatibility: vec![],
        supplementary_artifacts: vec![],
    }];
    assert!(matches!(execute(remove("wasm"), used), Err(EngineError::PluginInUse(_))));
}

#[test]
fn inspectors_are_registered() {
    let register = |capabilities| EngineCommand::RegisterArtifactInspector {
        id: "wasm".to_owned(),
        version: "1.2.0".to_owned(),
        digest: hash(7),
        capabilities,
    };
    match execute(register(vec![PluginCapability::InspectArtifact]), facts(vec![])).unwrap() {
        EngineAction::RegisterInspector(registration) => {
            assert_eq!(registration.id, "wasm");
            assert_eq!(registration.capabilities, vec![PluginCapability::InspectArtifact]);
        }
        other => panic!("{other:?}"),
    }
    assert!(matches!(
        execute(register(vec![PluginCapability::ArtifactCodec]), facts(vec![])),
        Err(EngineError::PluginGrantExceeded)
    ));
}

#[test]
fn extensions_are_enabled_for_new_sessions() {
    let enable = |name: &str| EngineCommand::EnableGlobalExtension {
        id: name.to_owned(),
        version: "1.2.0".to_owned(),
        digest: hash(7),
        settings: json("{\"a\":1}"),
        egress: vec![],
    };
    match execute(enable("bridge"), facts(vec![])).unwrap() {
        EngineAction::SaveExtension(selection) => {
            assert_eq!(selection.id, "bridge");
            assert_eq!(selection.pin.version, "1.2.0");
            assert_eq!(selection.pin.settings, json("{\"a\":1}"));
        }
        other => panic!("{other:?}"),
    }
    assert!(matches!(
        execute(enable("wasm"), facts(vec![])),
        Err(EngineError::ExtensionRuntimeRequired(_))
    ));
    assert!(matches!(
        execute(EngineCommand::DisableGlobalExtension { id: "x".to_owned() }, facts(vec![])),
        Ok(EngineAction::RemoveExtension { id }) if id == "x"
    ));
}

#[test]
fn new_sessions_take_the_enabled_extensions() {
    let create = |plugins| EngineCommand::CreateSession {
        configuration: Box::new(configuration(plugins)),
        greeting_index: 3,
    };
    let mut enabled = facts(vec![]);
    enabled.config.enabled_extensions = vec![("bridge".to_owned(), global())];
    match execute(create(vec![pin("wasm", true)]), enabled).unwrap() {
        EngineAction::CreateSession { configuration, greeting_index } => {
            assert_eq!(greeting_index, 3);
            assert_eq!(configuration.plugins, vec![pin("bridge", true), pin("wasm", true)]);
        }
        other => panic!("{other:?}"),
    }
    let mut named = facts(vec![]);
    named.config.enabled_extensions = vec![("bridge".to_owned(), global())];
    match execute(create(vec![pin("bridge", false)]), named).unwrap() {
        EngineAction::CreateSession { configuration, .. } => {
            assert_eq!(configuration.plugins, vec![pin("bridge", false)]);
        }
        other => panic!("{other:?}"),
    }
    let mut lost = facts(vec![]);
    lost.config.enabled_extensions = vec![("gone".to_owned(), global())];
    assert!(matches!(
        execute(create(vec![]), lost),
        Err(EngineError::Config(ConfigError::EnabledExtensionNotInstalled { id, .. }))
            if id == "gone"
    ));
}

#[test]
fn branches_start_where_they_are_told() {
    let branch = |source| EngineCommand::CreateBranch {
        session_id: id(1),
        source_branch_id: source,
        at_turn_id: Some(id(8)),
    };
    let mut known = facts(vec![]);
    known.branch = Some(BranchProjection {
        branch_id: id(2),
        session_id: id(1),
        greeting_revision_hash: hash(1),
        greeting_index: 4,
    });
    match execute(branch(None), known).unwrap() {
        EngineAction::CreateBranch { source_branch_id, at_turn_id, greeting_index, .. } => {
            assert_eq!(source_branch_id, id(2));
            assert_eq!(at_turn_id, Some(id(8)));
            assert_eq!(greeting_index, 4);
        }
        other => panic!("{other:?}"),
    }
    assert!(matches!(
        execute(branch(Some(id(9))), facts(vec![])),
        Err(EngineError::Session(SessionError::BranchNotFound(found))) if found == id(9)
    ));
    let mut other = facts(vec![]);
    other.branch = Some(BranchProjection {
        branch_id: id(2),
        session_id: id(5),
        greeting_revision_hash: hash(1),
        greeting_index: 4,
    });
    assert!(matches!(
        execute(branch(Some(id(2))), other),
        Err(EngineError::Session(SessionError::BranchSessionMismatch))
    ));
}

#[test]
fn prompt_orders_are_changed() {
    let change = |session_id, preset| EngineCommand::UpdatePromptOrder {
        session_id,
        revision_hash: preset,
        character_id: None,
        changes: vec![("main".to_owned(), false)],
    };
    assert!(matches!(
        execute(change(Some(id(1)), hash(4)), facts(vec![])),
        Ok(EngineAction::PatchPromptOrder { changes, .. }) if changes.len() == 1
    ));
    assert!(matches!(
        execute(change(Some(id(1)), hash(5)), facts(vec![])),
        Err(EngineError::PromptPresetNotPinned(session)) if session == id(1)
    ));
    assert!(matches!(
        execute(change(None, hash(5)), facts(vec![])),
        Ok(EngineAction::PatchPromptOrder { .. })
    ));
    let switch = EngineCommand::UpdatePromptOrderOverride {
        session_id: id(1),
        identifier: "main".to_owned(),
        enabled: Some(true),
    };
    assert!(matches!(
        execute(switch, facts(vec![])),
        Ok(EngineAction::OverridePromptOrder { overrides, .. })
            if overrides == vec![("main".to_owned(), true)]
    ));
    let mut bare = facts(vec![]);
    bare.configuration = None;
    assert!(matches!(
        execute(change(Some(id(1)), hash(4)), bare),
        Err(EngineError::Session(SessionError::ConfigurationNotFound(found))) if found == hash(2)
    ));
}

#[test]
fn attempts_are_rerun_in_their_session() {
    let rerun = || EngineCommand::Rerun { session_id: id(1), attempt_id: id(6) };
    assert!(matches!(
        execute(rerun(), facts(vec![])),
        Err(EngineError::Turn(TurnError::AttemptNotFound(attempt))) if attempt == id(6)
    ));
    let mut own = facts(vec![]);
    own.attempt_session = Some(id(1));
    assert!(matches!(
        execute(rerun(), own),
        Ok(EngineAction::Delegate(EngineCommand::Rerun { .. }))
    ));
    let mut other = facts(vec![]);
    other.attempt_session = Some(id(5));
    assert!(matches!(execute(rerun(), other), Err(EngineError::AttemptSessionMismatch)));
    assert!(matches!(
        execute(EngineCommand::Recover, facts(vec![])),
        Ok(EngineAction::Delegate(EngineCommand::Recover))
    ));
    assert!(matches!(
        execute(EngineCommand::InstallPlugin { directory: "/x".to_owned() }, facts(vec![])),
        Ok(EngineAction::InstallPackage { directory }) if directory == "/x"
    ));
}

#[test]
fn packages_come_by_themselves_until_they_are_removed() {
    let inspector = manifest(
        "org.stcli.sillytavern-codec",
        PluginRuntime::Wasm,
        vec![PluginCapability::ReadSession, PluginCapability::ArtifactCodec],
    );
    let expected = default_registration(&inspector);
    assert_eq!(expected.as_ref().unwrap().version, "1.2.0");
    assert!(default_registration(&manifest("memory", PluginRuntime::StBridge, vec![])).is_none());
    let mut turned = expected.clone().unwrap();
    turned.capabilities.reverse();
    assert!(!needs_installation(false, &expected, &Some(turned), true));
    assert!(needs_installation(false, &expected, &None, true));
    assert!(needs_installation(false, &None, &None, false));
    assert!(!needs_installation(true, &expected, &None, false));
}

fn plan(seed: u64) -> PromptPlan {
    PromptPlan {
        tokenizer: TokenizerId::Cl100kBase,
        rng_seed: seed,
        segments: vec![],
        total_tokens: 0,
        pruning: PromptPruning {
            context_limit: 10,
            response_reserve: 0,
            prompt_limit: 10,
            kept_tokens: 0,
            pruned_tokens: 0,
        },
    }
}

fn attempt(n: u128) -> AttemptRecord {
    AttemptRecord { attempt_id: id(n), session_id: id(1), primary: Ok((id(3), plan(9))) }
}

fn candidate(n: u128, of: Option<u128>) -> CandidateProjection {
    CandidateProjection {
        candidate_id: id(n),
        turn_id: id(3),
        attempt_id: of.map(id),
        origin: CandidateOrigin::Generated,
        content: "Hello".to_owned(),
        value: Json::Null,
    }
}

fn records() -> QueryRecords {
    QueryRecords {
        session: None,
        configuration: None,
        branch: None,
        greetings: vec![],
        artifacts: vec![],
        artifact: None,
        attempt: None,
        baseline: None,
        turn: None,
        candidates: vec![],
        turns: vec![],
        previous: None,
        preview_session: None,
        listing: vec![],
        registrations: vec![],
        registration: None,
    }
}

fn inspect(query: EngineQuery, records: QueryRecords) -> Result<EngineInspection, EngineError> {
    StcliEngine::new("/data/stcli.sqlite3".to_owned()).inspect(query, records)
}

#[test]
fn what_is_missing_is_told() {
    assert!(matches!(
        inspect(EngineQuery::Session { session_id: id(1) }, records()),
        Err(EngineError::Session(SessionError::SessionNotFound(found))) if found == id(1)
    ));
    assert!(matches!(
        inspect(EngineQuery::Artifact { revision_hash: hash(1) }, records()),
        Err(EngineError::Artifact(ArtifactError::NotFound(found))) if found == hash(1)
    ));
    assert!(matches!(
        inspect(EngineQuery::Attempt { attempt_id: id(4) }, records()),
        Err(EngineError::Turn(TurnError::AttemptNotFound(found))) if found == id(4)
    ));
    let mut bare = records();
    bare.session = Some(session());
    assert!(matches!(
        inspect(EngineQuery::Configuration { session_id: id(1) }, bare),
        Err(EngineError::Session(SessionError::ConfigurationNotFound(found))) if found == hash(2)
    ));
    assert!(matches!(
        inspect(EngineQuery::Sessions, records()),
        Ok(EngineInspection::Delegate(EngineQuery::Sessions))
    ));
}

#[test]
fn histories_begin_with_a_greeting() {
    let history = || EngineQuery::BranchHistory { session_id: id(1), branch_id: id(2) };
    let full = |owner| {
        let mut full = records();
        full.session = Some(session());
        full.branch = Some(BranchProjection {
            branch_id: id(2),
            session_id: owner,
            greeting_revision_hash: hash(1),
            greeting_index: 0,
        });
        full.greetings = vec!["Welcome".to_owned()];
        full.configuration = Some(SessionConfigurationRecord {
            revision_hash: hash(2),
            configuration: configuration(vec![]),
        });
        full
    };
    match inspect(history(), full(id(1))).unwrap() {
        EngineInspection::BranchHistory { greeting, session, .. } => {
            assert_eq!(greeting.unwrap().content, "Welcome");
            assert_eq!(session.session_id, id(1));
        }
        other => panic!("{other:?}"),
    }
    assert!(matches!(
        inspect(history(), full(id(5))),
        Err(EngineError::BranchSessionMismatch)
    ));
    assert!(matches!(
        inspect(EngineQuery::ExtensionInteractions { session_id: id(1), branch_id: None }, full(id(1))),
        Ok(EngineInspection::Delegate(EngineQuery::ExtensionInteractions { .. }))
    ));
}

#[test]
fn details_hold_the_reply_of_an_attempt() {
    let details = |session| EngineQuery::TurnDetails { session_id: session, attempt_id: id(4) };
    let full = || {
        let mut full = records();
        full.attempt = Some(attempt(4));
        full.turn = Some(TurnProjection {
            turn_id: id(3),
            session_id: id(1),
            branch_id: id(2),
            user_content: "Hi".to_owned(),
            selected_candidate_id: None,
        });
        full.candidates = vec![candidate(10, Some(8)), candidate(11, Some(4))];
        full
    };
    match inspect(details(id(1)), full()).unwrap() {
        EngineInspection::TurnDetails { candidate, .. } => {
            assert_eq!(candidate.unwrap().candidate_id, id(11));
        }
        other => panic!("{other:?}"),
    }
    assert!(matches!(
        inspect(details(id(9)), full()),
        Err(EngineError::AttemptSessionMismatch)
    ));
    let mut background = full();
    background.attempt = Some(AttemptRecord {
        attempt_id: id(4),
        session_id: id(1),
        primary: Err(TurnError::AttemptNotFound(id(4))),
    });
    assert!(matches!(
        inspect(EngineQuery::PromptPlan { attempt_id: id(4) }, background),
        Err(EngineError::Turn(TurnError::AttemptNotFound(_)))
    ));
    assert!(matches!(
        inspect(EngineQuery::PromptPlan { attempt_id: id(4) }, full()),
        Ok(EngineInspection::PromptPlan(plan)) if plan.rng_seed == 9
    ));
    assert!(matches!(
        inspect(
            EngineQuery::PromptSegments { attempt_id: id(4), selector: "main".to_owned() },
            full()
        ),
        Err(EngineError::PromptSegmentNotFound { attempt_id, selector })
            if attempt_id == id(4) && selector == "main"
    ));
}

#[test]
fn prompts_are_held_against_those_before() {
    let previous = || EngineQuery::PreviousPromptDiff { attempt_id: id(4) };
    let full = || {
        let mut full = records();
        full.attempt = Some(attempt(4));
        full.baseline = Some(attempt(21));
        full.turn = Some(TurnProjection {
            turn_id: id(3),
            session_id: id(1),
            branch_id: id(2),
            user_content: "Hi".to_owned(),
            selected_candidate_id: None,
        });
        full.turns = vec![
            TurnOutline { turn_id: id(2), selected_candidate_id: Some(id(11)), completed: true },
            TurnOutline { turn_id: id(3), selected_candidate_id: None, completed: true },
        ];
        full.previous = Some(candidate(11, Some(21)));
        full
    };
    match inspect(previous(), full()).unwrap() {
        EngineInspection::PromptDiff(diff) => {
            assert_eq!(diff.baseline_attempt_id, id(21));
            assert_eq!(diff.target_attempt_id, id(4));
        }
        other => panic!("{other:?}"),
    }
    let mut written = full();
    written.previous = Some(candidate(11, None));
    assert!(matches!(
        inspect(previous(), written),
        Err(EngineError::Turn(TurnError::PreviousTurnSelectionHasNoGenerationAttempt { .. }))
    ));
    let mut lost = full();
    lost.baseline = None;
    assert!(matches!(
        inspect(
            EngineQuery::PromptDiff { baseline_attempt_id: id(30), target_attempt_id: id(4) },
            lost
        ),
        Err(EngineError::Turn(TurnError::AttemptNotFound(found))) if found == id(30)
    ));
}

#[test]
fn inspectors_run_with_their_own_grants() {
    let ask = || EngineQuery::InspectArtifactWithPlugin {
        plugin_id: "wasm".to_owned(),
        revision_hash: hash(1),
    };
    let registered = |capabilities| {
        let mut full = records();
        full.listing = vec![installed("wasm", PluginRuntime::Wasm)];
        full.registration = Some(ArtifactInspectorRegistration {
            id: "wasm".to_owned(),
            version: "1.2.0".to_owned(),
            component_sha256: hash(7),
            capabilities,
        });
        full
    };
    match inspect(ask(), registered(vec![PluginCapability::InspectArtifact])).unwrap() {
        EngineInspection::RunInspector(grant) => {
            assert!(grant.enabled);
            assert_eq!(grant.settings, Json::Null);
            assert_eq!(grant.capabilities, vec![PluginCapability::InspectArtifact]);
        }
        other => panic!("{other:?}"),
    }
    assert!(matches!(
        inspect(ask(), registered(vec![])),
        Err(EngineError::Plugin(PluginError::CapabilityDenied(PluginCapability::InspectArtifact)))
    ));
    assert!(matches!(
        inspect(ask(), records()),
        Err(EngineError::ArtifactInspectorNotRegistered(name)) if name == "wasm"
    ));
    let mut shown = registered(vec![PluginCapability::InspectArtifact]);
    shown.registrations = vec![shown.registration.clone().unwrap()];
    match inspect(EngineQuery::Plugins { plugin_id: None }, shown).unwrap() {
        EngineInspection::Plugins(list) => assert!(list[0].inspection_enabled),
        other => panic!("{other:?}"),
    }
}

#[test]
fn inspectors_are_given_what_an_artifact_means() {
    let input = inspection_input("wasm", json(r#"{"name": "Alice"}"#));
    assert_eq!(input.event, PluginEvent::InspectArtifact);
    assert_eq!(input.plugin_id, "wasm");
    assert_eq!(input.artifact, json(r#"{"name": "Alice"}"#));
    assert_eq!(input.state, json("{}"));
    for value in [&input.settings, &input.context, &input.payload, &input.session] {
        assert_eq!(*value, Json::Null);
    }
}

#[test]
fn inspectors_say_one_thing_of_an_artifact() {
    let output = || PluginEffect::Output { value: json(r#"{"directives": 2}"#) };
    let finish = |effects| finish_inspection("wasm".to_owned(), hash(1), &effects);
    let said = finish(vec![PluginEffect::Observe { value: Json::Null }, output()]).unwrap();
    assert_eq!(said.plugin_id, "wasm");
    assert_eq!(said.revision_hash, hash(1));
    assert_eq!(said.value, json(r#"{"directives": 2}"#));
    assert!(matches!(
        finish(vec![]),
        Err(EngineError::Plugin(PluginError::ArtifactInspectionOutputCount(0)))
    ));
    assert!(matches!(
        finish(vec![output(), output(), output()]),
        Err(EngineError::Plugin(PluginError::ArtifactInspectionOutputCount(2)))
    ));
}

#[test]
fn restored_packages_inspect_again() {
    let listing = vec![
        installed("wasm", PluginRuntime::Wasm),
        installed(DEFAULT_NEMO_DIRECTIVES_PLUGIN_ID, PluginRuntime::Wasm),
    ];
    let restored = restored_default(listing).unwrap();
    assert_eq!(restored.manifest.id, DEFAULT_NEMO_DIRECTIVES_PLUGIN_ID);
    assert!(restored.inspection_enabled);
    assert!(matches!(
        restored_default(vec![installed("wasm", PluginRuntime::Wasm)]),
        Err(EngineError::ArtifactInspectorNotRegistered(id))
            if id == DEFAULT_NEMO_DIRECTIVES_PLUGIN_ID
    ));
}

#[test]
fn capsules_and_previews_are_of_their_session() {
    assert!(matches!(
        inspect(EngineQuery::DryRunRerun { session_id: id(1), attempt_id: id(4) }, records()),
        Err(EngineError::AttemptSessionMismatch)
    ));
    let mut own = records();
    own.preview_session = Some(id(1));
    assert!(inspect(EngineQuery::DryRunRerun { session_id: id(1), attempt_id: id(4) }, own).is_ok());
    let record = |kind| ArtifactRecord {
        revision_hash: hash(1),
        kind,
        source_format: "json".to_owned(),
        semantic_hash: hash(2),
        source_blob_hash: hash(3),
        imported_event_id: "event".to_owned(),
    };
    let mut kept = records();
    kept.artifacts = vec![record(ArtifactKind::Lorebook), record(ArtifactKind::CharacterCardV2)];
    assert!(matches!(
        inspect(EngineQuery::Artifacts { kind: Some(ArtifactKind::Lorebook) }, kept),
        Ok(EngineInspection::Artifacts(list)) if list.len() == 1
    ));
    let offered = offer_characters(&vec![
        (record(ArtifactKind::Lorebook), json("{}")),
        (record(ArtifactKind::CharacterCardV2), json(r#"{"data": {"name": "Alice"}}"#)),
    ]);
    assert_eq!(offered, vec![(hash(1), "Alice".to_owned())]);
}

const SCHEMA: &str = r#"{"type": "object", "x-stcli-interaction": {}, "properties": {
    "loud": {"type": "boolean", "x-stcli-control": "boolean", "title": "Loud",
        "description": "How", "default": true}
}}"#;

fn scene(declaration: Result<bool, PluginError>, pins: Vec<PluginPin>) -> InteractionScene {
    let annotation = Annotation {
        schema: INTERACTION_SCHEMA.to_owned(),
        id: "settings".to_owned(),
        component_sha256: hash(7),
        support: InteractionSupport::Available,
        support_reason: None,
        groups: vec![DeclaredGroup {
            label: "General".to_owned(),
            help: "All of it".to_owned(),
            fields: vec!["loud".to_owned()],
        }],
        actions: vec![],
    };
    let reading = match declaration {
        Ok(true) => load_declaration(
            &manifest("bridge", PluginRuntime::StBridge, vec![]),
            &json(SCHEMA),
            Ok(annotation),
        ),
        Ok(false) => Ok(None),
        Err(fault) => Err(fault),
    };
    InteractionScene {
        session_id: id(1),
        branch_id: None,
        configuration: SessionConfigurationRecord {
            revision_hash: hash(2),
            configuration: configuration(pins),
        },
        listing: vec![
            installed("wasm", PluginRuntime::Wasm),
            installed("bridge", PluginRuntime::StBridge),
        ],
        readings: vec![PinReading { declaration: reading, persisted: json("{}") }],
        provider_profiles: vec![],
        characters: vec![],
        completed_attempt: false,
        scripting: false,
    }
}

#[test]
fn extensions_of_a_session_are_shown() {
    let registry = PluginRegistry::new("/plugins".to_owned());
    let shown = extension_interactions(&registry, scene(Ok(true), vec![pin("bridge", true)]));
    let shown = shown.unwrap();
    assert_eq!(shown.len(), 1);
    assert_eq!(shown[0].groups[0].fields.len(), 1);
    let none = extension_interactions(&registry, scene(Ok(false), vec![pin("bridge", true)]));
    assert!(none.unwrap().is_empty());
    let wasm = extension_interactions(&registry, scene(Ok(false), vec![pin("wasm", true)]));
    assert!(wasm.unwrap().is_empty());
    assert!(matches!(
        extension_interactions(&registry, scene(Ok(false), vec![pin("gone", true)])),
        Err(EngineError::PluginNotFound { id, .. }) if id == "gone"
    ));
    assert!(matches!(
        extension_interactions(
            &registry,
            scene(Err(PluginError::DigestMismatch), vec![pin("bridge", true)])
        ),
        Err(EngineError::Plugin(PluginError::DigestMismatch))
    ));
}

fn writing_pin() -> PluginPin {
    let mut pin = pin("bridge", true);
    pin.capabilities.push(PluginCapability::WriteOwnState);
    pin
}

fn shown() -> InteractionSurface {
    let registry = PluginRegistry::new("/plugins".to_owned());
    extension_interactions(&registry, scene(Ok(true), vec![writing_pin()])).unwrap().remove(0)
}

fn loud(surface: &InteractionSurface, value: InteractionValue) -> InteractionSubmission {
    InteractionSubmission::Save {
        target: surface.save.target.clone(),
        edits: vec![InteractionEdit { target: surface.groups[0].fields[0].target.clone(), value }],
    }
}

fn submit(
    submission: &InteractionSubmission,
    scene: InteractionScene,
) -> Result<SubmissionStep, EngineError> {
    let surface = shown();
    StcliEngine::new("/data/stcli.sqlite3".to_owned()).submit_extension_interaction(
        100,
        &surface.identity,
        &surface.revision,
        submission,
        scene,
    )
}

#[test]
fn submissions_are_saved_or_answered() {
    let surface = shown();
    let fresh = || scene(Ok(true), vec![writing_pin()]);
    match submit(&loud(&surface, InteractionValue::Boolean(false)), fresh()).unwrap() {
        SubmissionStep::Save { plugins, expected } => {
            assert_eq!(expected, hash(2));
            assert_eq!(plugins[0].settings, json(r#"{"loud": false}"#));
        }
        other => panic!("{other:?}"),
    }
    match submit(&loud(&surface, InteractionValue::Text("no".to_owned())), fresh()).unwrap() {
        SubmissionStep::Answered(result) => {
            assert!(result.surface.groups[0].fields[0].error.is_some());
            assert!(matches!(result.outcome, InteractionOutcome::Rejected { .. }));
        }
        other => panic!("{other:?}"),
    }
    let mut kept = writing_pin();
    kept.settings = json(r#"{"loud": false}"#);
    let same = scene(Ok(true), vec![kept]);
    match submit(&loud(&surface, InteractionValue::Boolean(false)), same).unwrap() {
        SubmissionStep::Answered(result) => assert!(matches!(
            result.outcome,
            InteractionOutcome::Rejected { reason }
                if reason == "Interaction revision is stale; refresh before submitting"
        )),
        other => panic!("{other:?}"),
    }
    let empty = InteractionSubmission::Save { target: surface.save.target.clone(), edits: vec![] };
    match submit(&empty, fresh()).unwrap() {
        SubmissionStep::Answered(result) => assert!(matches!(
            result.outcome,
            InteractionOutcome::Saved { configuration_revision } if configuration_revision == hash(2)
        )),
        other => panic!("{other:?}"),
    }
}

#[test]
fn submissions_that_address_nothing_are_refused() {
    let surface = shown();
    let submission = loud(&surface, InteractionValue::Boolean(false));
    assert!(matches!(
        submit(&submission, scene(Ok(false), vec![writing_pin()])),
        Err(EngineError::InteractionUnavailable(reason))
            if reason == "Extension interaction is no longer available"
    ));
    assert!(matches!(
        submit(&submission, scene(Ok(false), vec![pin("gone", true)])),
        Err(EngineError::PluginNotFound { .. })
    ));
    let engine = StcliEngine::new("/data/stcli.sqlite3".to_owned());
    assert!(matches!(
        engine.submit_extension_interaction(
            MAX_SUBMISSION_BYTES + 1,
            &surface.identity,
            &surface.revision,
            &submission,
            scene(Ok(true), vec![writing_pin()]),
        ),
        Err(EngineError::Plugin(PluginError::InputLimit))
    ));
    let mut identity = surface.identity.clone();
    identity.session_id = id(99);
    match engine
        .submit_extension_interaction(
            100,
            &identity,
            &surface.revision,
            &submission,
            scene(Ok(true), vec![writing_pin()]),
        )
        .unwrap()
    {
        SubmissionStep::Answered(result) => {
            assert!(matches!(result.outcome, InteractionOutcome::Rejected { .. }));
            assert_eq!(result.surface, surface);
        }
        other => panic!("{other:?}"),
    }
}

#[test]
fn saved_submissions_are_answered_with_what_is_shown() {
    let engine = StcliEngine::new("/data/stcli.sqlite3".to_owned());
    let saved = engine.finish_save("bridge", SaveReply::Saved(hash(9)), vec![shown()]).unwrap();
    assert!(matches!(
        saved.outcome,
        InteractionOutcome::Saved { configuration_revision } if configuration_revision == hash(9)
    ));
    let conflict = engine.finish_save("bridge", SaveReply::Conflict, vec![shown()]).unwrap();
    assert!(matches!(
        conflict.outcome,
        InteractionOutcome::Rejected { reason }
            if reason == "Interaction revision changed during Save; refresh before submitting"
    ));
    assert!(matches!(
        engine.finish_save("bridge", SaveReply::Conflict, vec![]),
        Err(EngineError::InteractionUnavailable(reason))
            if reason == "Extension interaction disappeared during Save"
    ));
    assert!(matches!(
        engine.finish_save("other", SaveReply::Saved(hash(9)), vec![shown()]),
        Err(EngineError::InteractionUnavailable(reason))
            if reason == "Extension interaction disappeared after Save"
    ));
}
