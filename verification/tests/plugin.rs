use stcli_core::artifact_codec::{
    ArtifactCodecBundle, ArtifactCodecCompatibility, ArtifactCodecDeclaration,
    ArtifactCodecError, ArtifactCodecInput, ArtifactCodecOutput, ArtifactCodecProvenance,
    ARTIFACT_CODEC_INTERFACE_VERSION, MAX_CODEC_COMPATIBILITY_ITEMS,
};
use stcli_core::artifact::kind::ArtifactKind;
use stcli_core::egress::{EgressBroker, EgressMode};
use stcli_core::engine::codec::{
    accept_decoding, accept_detection, accept_encoding, codec_grant, codec_input, codec_limits,
    codec_source, decode_artifact_with_codec, export_artifact_with_codec, settle_claims,
    take_output, validate_codec_compatibility, CodecStep, ExportStep,
};
use stcli_core::engine::plugins::{
    adopt_plugin, check_removable, enable_global_extension, inspection_enabled, installed_plugin,
    plugin_pin, register_artifact_inspector, set_plugin_enabled, show_packages, starting_pins,
    upgrade_plugin, EngineError,
};
use stcli_core::identity::ContentHash;
use stcli_core::inference::{InferenceBroker, InferenceMode};
use stcli_core::json::{Json, JsonNumber, NumberForm};
use stcli_core::plugin::{
    check_component, check_manifest, conclude, is_safe_path, list_plugins, order_plugins,
    plugin_digest, prepare_input, session_mode, valid_id, validate_effects, validate_grant,
    validate_manifest, validate_recorded_receipt, ArtifactInspectorRegistration, InstalledPlugin, PluginCapability,
    PluginDependency, PluginEffect, PluginError, PluginEvent, PluginGrant, PluginHost,
    PluginInput, PluginLimits, PluginManifest, PluginRegistry, PluginRun, PluginRuntime,
    PromptContribution, PromptSlot, RunReplies, RunStep, SchemaReading, ScriptLimits,
    MANIFEST_SCHEMA,
};
use stcli_core::state::{StateKey, VariableScope};

fn order(value: f64) -> i64 {
    if value >= 0.0 {
        value.abs().to_bits() as i64
    } else {
        -((-value).to_bits() as i64)
    }
}

fn convert(value: &serde_json::Value) -> Json {
    match value {
        serde_json::Value::Null => Json::Null,
        serde_json::Value::Bool(b) => Json::Bool(*b),
        serde_json::Value::Number(n) => {
            let form = if let Some(u) = n.as_u64() {
                NumberForm::Unsigned(u)
            } else if let Some(i) = n.as_i64() {
                NumberForm::Negative(i)
            } else {
                NumberForm::Real(n.to_string())
            };
            Json::Number(JsonNumber { form, order: order(n.as_f64().unwrap()) })
        }
        serde_json::Value::String(s) => Json::Text(s.clone()),
        serde_json::Value::Array(items) => Json::Array(items.iter().map(convert).collect()),
        serde_json::Value::Object(members) => {
            Json::Object(members.iter().map(|(k, v)| (k.clone(), convert(v))).collect())
        }
    }
}

fn json(source: &str) -> Json {
    convert(&serde_json::from_str(source).unwrap())
}

fn manifest(id: &str, version: &str) -> PluginManifest {
    PluginManifest {
        schema: MANIFEST_SCHEMA.to_owned(),
        id: id.to_owned(),
        version: version.to_owned(),
        engine: ">=0.1.0, <1.0.0".to_owned(),
        runtime: PluginRuntime::Wasm,
        component: "main.wasm".to_owned(),
        component_sha256: plugin_digest(&b"component".to_vec()),
        dependencies: vec![],
        license: "MIT OR Apache-2.0".to_owned(),
        subscriptions: vec![PluginEvent::PrePrompt, PluginEvent::Command],
        prompt_slots: vec![PromptSlot::InChat],
        commands: vec!["greet".to_owned()],
        macros: vec!["mood".to_owned()],
        settings_schema: None,
        requested_capabilities: vec![
            PluginCapability::RegisterMacro,
            PluginCapability::ContributePrompt,
            PluginCapability::WriteOwnState,
        ],
        before: vec![],
        after: vec![],
        generate_interceptor: None,
        display_name: None,
        artifact_codec: None,
    }
}

fn installed(id: &str, version: &str) -> InstalledPlugin {
    InstalledPlugin {
        manifest: manifest(id, version),
        directory: format!("/plugins/{id}"),
        inspection_enabled: false,
    }
}

fn grant(plugin: &InstalledPlugin) -> PluginGrant {
    PluginGrant {
        id: plugin.manifest.id.clone(),
        version: plugin.manifest.version.clone(),
        component_sha256: plugin.manifest.component_sha256.clone(),
        capabilities: plugin.manifest.requested_capabilities.clone(),
        settings: Json::Object(vec![]),
        egress_allow_list: vec![],
        enabled: true,
    }
}

fn input(event: PluginEvent) -> PluginInput {
    PluginInput {
        event,
        plugin_id: String::new(),
        settings: Json::Null,
        context: Json::Null,
        payload: Json::Null,
        state: Json::Null,
        artifact: Json::Null,
        session: json(r#"{"secret": 1}"#),
    }
}

fn limits() -> PluginLimits {
    PluginLimits {
        component_bytes: 100,
        input_bytes: 100,
        output_bytes: 100,
        memory_bytes: 1000,
        fuel: 1000,
        timeout_ms: 10,
        script: ScriptLimits {
            memory_bytes: 1,
            stack_bytes: 1,
            interrupt_ticks: 1,
            log_entries: 1,
            log_message_bytes: 1,
            microtask_jobs: 1,
        },
    }
}

fn run(effects: Vec<PluginEffect>) -> PluginRun {
    PluginRun {
        effects,
        fuel_consumed: 7,
        script_logs: vec![],
        egress: vec![],
        inference: vec![],
        prng_seed: None,
    }
}

#[test]
fn manifests_are_held_to_their_form() {
    let component = b"component".to_vec();
    let check = |change: fn(&mut PluginManifest)| {
        let mut manifest = manifest("org.example", "1.0.0");
        change(&mut manifest);
        validate_manifest(&manifest, &component, SchemaReading::Absent)
    };
    assert!(check(|_| ()).is_ok());
    assert!(matches!(
        check(|m| m.schema = "other".to_owned()),
        Err(PluginError::UnsupportedManifest(schema)) if schema == "other"
    ));
    assert!(matches!(
        check(|m| m.id = "Not An Id".to_owned()),
        Err(PluginError::InvalidId(_))
    ));
    assert_eq!(
        check(|m| m.engine = ">=2.0.0".to_owned()),
        Err(PluginError::EngineVersion)
    );
    assert!(matches!(
        check(|m| m.license = "No Such License".to_owned()),
        Err(PluginError::InvalidLicense(_))
    ));
    assert!(matches!(
        check(|m| m.component = "../main.wasm".to_owned()),
        Err(PluginError::UnsafePath(_))
    ));
    assert_eq!(
        check(|m| m.component_sha256 = ContentHash::new([0; 32])),
        Err(PluginError::DigestMismatch)
    );
    assert!(check_manifest(&manifest("org.example", "1.0.0")).is_ok());
    assert!(valid_id("org.example-one"));
    assert!(!valid_id(""));
    assert!(is_safe_path("a/b.js"));
    assert!(!is_safe_path("/a") && !is_safe_path("a/../b"));
}

#[test]
fn grants_are_held_to_what_is_installed() {
    let plugin = installed("org.example", "1.0.0");
    assert!(validate_grant(&plugin, &grant(&plugin)).is_ok());
    let mut wrong = grant(&plugin);
    wrong.version = "1.0.1".to_owned();
    assert_eq!(validate_grant(&plugin, &wrong), Err(PluginError::GrantPinMismatch));
    let mut wrong = grant(&plugin);
    wrong.capabilities.push(PluginCapability::BrokeredEgress);
    assert_eq!(validate_grant(&plugin, &wrong), Err(PluginError::GrantExceedsRequest));
    let mut wrong = grant(&plugin);
    wrong.enabled = false;
    assert_eq!(
        prepare_input(&plugin, &wrong, input(PluginEvent::PrePrompt)),
        Err(PluginError::Disabled)
    );
    assert_eq!(
        prepare_input(&plugin, &grant(&plugin), input(PluginEvent::PreLore)),
        Err(PluginError::EventNotSubscribed(PluginEvent::PreLore))
    );
}

#[test]
fn a_plugin_sees_only_what_it_may() {
    let plugin = installed("org.example", "1.0.0");
    let mut grant = grant(&plugin);
    grant.settings = json(r#"{"mode": "strict"}"#);
    let prepared = prepare_input(&plugin, &grant, input(PluginEvent::PrePrompt)).unwrap();
    assert_eq!(prepared.plugin_id, "org.example");
    assert_eq!(prepared.settings, json(r#"{"mode": "strict"}"#));
}

#[test]
fn components_are_held_to_their_digest_and_size() {
    let plugin = installed("org.example", "1.0.0");
    let grant = grant(&plugin);
    let component = b"component".to_vec();
    assert_eq!(
        check_component(&limits(), &plugin, &grant, 5, &component).unwrap(),
        plugin.manifest.component_sha256
    );
    assert_eq!(
        check_component(&limits(), &plugin, &grant, 101, &component),
        Err(PluginError::InputLimit)
    );
    assert_eq!(
        check_component(&limits(), &plugin, &grant, 5, &vec![0; 101]),
        Err(PluginError::ComponentLimit)
    );
    assert_eq!(
        check_component(&limits(), &plugin, &grant, 5, &b"other".to_vec()),
        Err(PluginError::DigestMismatch)
    );
}

#[test]
fn effects_are_held_to_what_was_granted() {
    let manifest = manifest("org.example", "1.0.0");
    let all = manifest.requested_capabilities.clone();
    let check = |capabilities: &Vec<PluginCapability>, event, effect| {
        validate_effects(&manifest, capabilities, event, &vec![effect])
    };
    let macro_effect = |name: &str| PluginEffect::RegisterMacro {
        name: name.to_owned(),
        value: "calm".to_owned(),
    };
    assert!(check(&all, PluginEvent::PrePrompt, macro_effect("mood")).is_ok());
    assert!(matches!(
        check(&all, PluginEvent::PrePrompt, macro_effect("other")),
        Err(PluginError::UndeclaredMacro(name)) if name == "other"
    ));
    assert_eq!(
        check(&vec![], PluginEvent::PrePrompt, macro_effect("mood")),
        Err(PluginError::CapabilityDenied(PluginCapability::RegisterMacro))
    );
    assert_eq!(
        check(&all, PluginEvent::Command, macro_effect("mood")),
        Err(PluginError::CommandEffectDenied)
    );
    let prompt = |slot| PluginEffect::Prompt {
        contribution: PromptContribution {
            slot,
            name: "n".to_owned(),
            role: "system".to_owned(),
            content: "c".to_owned(),
            depth: None,
            order: 0,
            outlet: None,
        },
    };
    assert!(check(&all, PluginEvent::PrePrompt, prompt(PromptSlot::InChat)).is_ok());
    assert_eq!(
        check(&all, PluginEvent::PrePrompt, prompt(PromptSlot::AfterHistory)),
        Err(PluginError::ClosedPromptSlot(PromptSlot::AfterHistory))
    );
    let write = |scope, name: &str| PluginEffect::StateWrite {
        key: StateKey { scope, name: name.to_owned() },
        value: Json::Null,
    };
    assert_eq!(
        check(&all, PluginEvent::PrePrompt, write(VariableScope::Global, "org.example.x")),
        Err(PluginError::StateScopeDenied)
    );
}

#[test]
fn receipts_tell_what_a_plugin_did() {
    let plugin = installed("org.example", "1.0.0");
    let grant = grant(&plugin);
    let effects = vec![PluginEffect::RegisterMacro {
        name: "mood".to_owned(),
        value: "calm".to_owned(),
    }];
    let prepared = prepare_input(&plugin, &grant, input(PluginEvent::PrePrompt)).unwrap();
    let receipt = conclude(
        &limits(),
        plugin.clone(),
        &grant,
        plugin.manifest.component_sha256.clone(),
        prepared.clone(),
        9,
        run(effects.clone()),
    )
    .unwrap();
    assert_eq!(receipt.id, "org.example");
    assert_eq!(receipt.effects, effects);
    assert_eq!(receipt.fuel_consumed, 7);
    assert!(validate_recorded_receipt(&receipt).is_ok());
    let mut changed = receipt.clone();
    changed.version = "9.9.9".to_owned();
    assert!(matches!(
        validate_recorded_receipt(&changed),
        Err(PluginError::RecordedReceiptInvalid(_))
    ));
    assert_eq!(
        conclude(
            &limits(),
            plugin.clone(),
            &grant,
            plugin.manifest.component_sha256.clone(),
            prepared,
            101,
            run(vec![])
        ),
        Err(PluginError::OutputLimit)
    );
}

fn ids(plugins: &[&InstalledPlugin]) -> Vec<String> {
    plugins.iter().map(|plugin| plugin.manifest.id.clone()).collect()
}

#[test]
fn plugins_are_ordered_by_what_they_need() {
    let mut a = installed("a", "1.0.0");
    let mut b = installed("b", "1.0.0");
    let c = installed("c", "1.2.0");
    a.manifest.dependencies =
        vec![PluginDependency { id: "c".to_owned(), version: "^1.0".to_owned() }];
    b.manifest.after = vec!["a".to_owned()];
    let plugins = vec![b.clone(), a.clone(), c.clone()];
    assert_eq!(ids(&order_plugins(&plugins).unwrap()), ["c", "a", "b"]);

    let missing = vec![a.clone(), b.clone()];
    assert!(matches!(
        order_plugins(&missing),
        Err(PluginError::MissingDependency { plugin, dependency })
            if plugin == "a" && dependency == "c"
    ));
    let old = vec![a.clone(), installed("c", "0.9.0")];
    assert!(matches!(
        order_plugins(&old),
        Err(PluginError::DependencyVersion { .. })
    ));
    let mut c = c;
    c.manifest.after = vec!["b".to_owned()];
    let cycle = vec![a, b, c];
    assert_eq!(order_plugins(&cycle), Err(PluginError::DependencyCycle));
}

#[test]
fn the_newest_version_of_a_plugin_is_found_by_its_digest() {
    let registry = PluginRegistry::new("/plugins".to_owned());
    let listing = list_plugins(vec![
        installed("b", "1.0.0"),
        installed("a", "2.0.0"),
        installed("a", "1.0.0"),
    ]);
    let shown: Vec<(String, String)> = listing
        .iter()
        .map(|plugin| (plugin.manifest.id.clone(), plugin.manifest.version.clone()))
        .collect();
    assert_eq!(shown[0].0, "a");
    assert_eq!(shown[2].0, "b");
    let digest = plugin_digest(&b"component".to_vec());
    assert!(registry.find(&listing, "b", &digest).is_some());
    assert!(registry.find(&listing, "b", &ContentHash::new([0; 32])).is_none());
    assert!(registry.find_pinned(&listing, "a", "2.0.0", &digest).is_some());
    assert!(registry.find_pinned(&listing, "a", "3.0.0", &digest).is_none());
    assert!(matches!(
        installed_plugin(&registry, &listing, &"z".to_owned(), &"1.0.0".to_owned(), &digest),
        Err(EngineError::PluginNotFound { id, .. }) if id == "z"
    ));
}

#[test]
fn pins_are_adopted_switched_and_upgraded() {
    let manifest_one = manifest("a", "1.0.0");
    let pin = plugin_pin(
        &manifest_one,
        "a".to_owned(),
        vec![PluginCapability::RegisterMacro],
        Json::Object(vec![]),
        vec![],
    )
    .unwrap();
    assert!(matches!(
        plugin_pin(
            &manifest_one,
            "a".to_owned(),
            vec![PluginCapability::BrokeredEgress],
            Json::Object(vec![]),
            vec![]
        ),
        Err(EngineError::PluginGrantExceeded)
    ));
    let mut pins = adopt_plugin(vec![pin.clone()], pin.clone());
    assert_eq!(pins, [pin.clone()]);
    assert!(!set_plugin_enabled(&mut pins, &"a".to_owned(), false, false, None).unwrap());
    assert!(!pins[0].enabled);
    assert!(matches!(
        set_plugin_enabled(&mut pins, &"z".to_owned(), false, false, None),
        Err(EngineError::PluginNotPinned(id)) if id == "z"
    ));
    let manifest_two = manifest("a", "2.0.0");
    upgrade_plugin(&mut pins, &"a".to_owned(), &manifest_two).unwrap();
    assert_eq!(pins[0].version, "2.0.0");
    let mut smaller = manifest_two.clone();
    smaller.requested_capabilities = vec![];
    assert!(matches!(
        upgrade_plugin(&mut pins, &"a".to_owned(), &smaller),
        Err(EngineError::PluginUpgradeGrantExceeded)
    ));
    assert_eq!(starting_pins(vec![pin.clone()], vec![pin.clone()]), [pin]);
    assert!(matches!(
        check_removable("a".to_owned(), true, false),
        Err(EngineError::PluginInUse(id)) if id == "a"
    ));
    assert_eq!(check_removable("a".to_owned(), false, false).unwrap(), "a");
}

#[test]
fn inspectors_and_extensions_are_registered() {
    let mut manifest = manifest("a", "1.0.0");
    manifest.requested_capabilities = vec![PluginCapability::InspectArtifact];
    let registration = register_artifact_inspector(
        &manifest,
        "a".to_owned(),
        vec![PluginCapability::InspectArtifact],
    )
    .unwrap();
    assert!(inspection_enabled(&vec![registration.clone()], &manifest));
    let listing = vec![installed("a", "1.0.0"), installed("b", "1.0.0")];
    let shown = show_packages(listing, &vec![registration], &Some("a".to_owned()));
    assert_eq!(shown.len(), 1);
    assert!(matches!(
        enable_global_extension(
            &manifest,
            &vec![],
            &"a".to_owned(),
            Json::Object(vec![]),
            vec![]
        ),
        Err(EngineError::ExtensionRuntimeRequired(id)) if id == "a"
    ));
    manifest.runtime = PluginRuntime::StBridge;
    let selection = enable_global_extension(
        &manifest,
        &vec![PluginCapability::InspectArtifact],
        &"a".to_owned(),
        Json::Object(vec![]),
        vec![],
    )
    .unwrap();
    assert_eq!(selection.pin.version, "1.0.0");
}

fn nothing_known() -> RunReplies {
    RunReplies { input_bytes: None, component: None, output_bytes: None, run: None }
}

fn refused(step: RunStep) -> PluginError {
    match step {
        RunStep::Done(Err(error)) => error,
        _ => panic!("not refused"),
    }
}

#[test]
fn a_run_is_checked_step_by_step() {
    let host = PluginHost::new(limits());
    let plugin = installed("org.example", "1.0.0");
    let grant = grant(&plugin);
    let step = |replies| {
        host.execute(plugin.clone(), &grant, input(PluginEvent::PrePrompt), replies)
    };
    match step(nothing_known()) {
        RunStep::WriteInput(prepared) => assert_eq!(prepared.plugin_id, "org.example"),
        _ => panic!("the input comes first"),
    }
    let written = |bytes| RunReplies { input_bytes: Some(bytes), ..nothing_known() };
    assert_eq!(refused(step(written(101))), PluginError::InputLimit);
    assert!(matches!(step(written(50)), RunStep::ReadComponent));
    let read = |component: &[u8]| RunReplies { component: Some(component.to_vec()), ..written(50) };
    assert_eq!(refused(step(read(b"other"))), PluginError::DigestMismatch);
    assert_eq!(refused(step(read(&[0; 101]))), PluginError::ComponentLimit);
    match step(read(b"component")) {
        RunStep::Run(asked) => {
            assert!(asked.script.is_none() && asked.egress.is_none() && asked.inference.is_none());
        }
        _ => panic!("the component is run"),
    }
    let ran = |bytes| RunReplies { output_bytes: Some(bytes), ..read(b"component") };
    assert_eq!(refused(step(ran(101))), PluginError::OutputLimit);
    assert!(matches!(step(ran(20)), RunStep::ReadOutput));
    let effect = PluginEffect::RegisterMacro { name: "mood".to_owned(), value: "calm".to_owned() };
    match step(RunReplies { run: Some(run(vec![effect])), ..ran(20) }) {
        RunStep::Done(Ok(receipt)) => {
            assert!(validate_recorded_receipt(&receipt).is_ok());
            assert_eq!(receipt.component_sha256, plugin.manifest.component_sha256);
        }
        _ => panic!("the run is recorded"),
    }
    let denied = PluginEffect::Output { value: Json::Null };
    assert_eq!(
        refused(step(RunReplies { run: Some(run(vec![denied])), ..ran(20) })),
        validate_effects(
            &plugin.manifest,
            &grant.capabilities,
            PluginEvent::PrePrompt,
            &vec![PluginEffect::Output { value: Json::Null }]
        )
        .unwrap_err()
    );
    let mut off = grant.clone();
    off.enabled = false;
    assert_eq!(
        refused(host.execute(
            plugin.clone(),
            &off,
            input(PluginEvent::PrePrompt),
            nothing_known()
        )),
        PluginError::Disabled
    );
}

#[test]
fn a_bridge_extension_is_run_with_its_brokers() {
    let host = PluginHost::with_egress(limits(), EgressBroker::live())
        .with_inference(InferenceBroker::stub());
    let mut plugin = installed("org.example", "1.0.0");
    plugin.manifest.runtime = PluginRuntime::StBridge;
    plugin.manifest.requested_capabilities.push(PluginCapability::InferenceCapability);
    let mut session = input(PluginEvent::PrePrompt);
    session.session = json(r#"{"dry_run": true, "provider_profile": "local"}"#);
    let replies = |component: &[u8]| RunReplies {
        input_bytes: Some(50),
        component: Some(component.to_vec()),
        ..nothing_known()
    };
    match host.execute(plugin.clone(), &grant(&plugin), session.clone(), replies(b"component")) {
        RunStep::Run(asked) => {
            assert_eq!(asked.script.as_deref(), Some("component"));
            let egress = asked.egress.unwrap();
            assert!(!egress.policy.capability_granted);
            assert_eq!(egress.mode, EgressMode::DryRun);
            let inference = asked.inference.unwrap();
            assert!(inference.broker.stubbed && inference.policy.capability_granted);
            assert_eq!(inference.policy.mode, InferenceMode::DryRun);
            assert_eq!(inference.default_profile, "local");
        }
        _ => panic!("the extension is run"),
    }
    plugin.manifest.component_sha256 = plugin_digest(&vec![0xff]);
    assert_eq!(
        refused(host.execute(plugin.clone(), &grant(&plugin), session, replies(&[0xff]))),
        PluginError::ScriptNotUtf8("org.example".to_owned())
    );
}

#[test]
fn sessions_say_whether_they_are_dry() {
    assert!(session_mode(&json(r#"{"dry_run": true}"#)).dry_run);
    assert!(!session_mode(&json("{}")).dry_run);
    let host = PluginHost::new(limits());
    let plugin = installed("a", "1.0.0");
    assert!(host.egress_invocation(&grant(&plugin), &json("{}")).is_none());
}

#[test]
fn capabilities_are_found_by_their_names() {
    for capability in [PluginCapability::ArtifactCodec, PluginCapability::ReadSession] {
        assert_eq!(PluginCapability::parse(capability.as_str()), Ok(capability));
    }
    assert_eq!(
        PluginCapability::parse("none"),
        Err(PluginError::UnknownCapability("none".to_owned()))
    );
}

fn item(code: &str) -> ArtifactCodecCompatibility {
    ArtifactCodecCompatibility { code: code.to_owned(), message: "m".to_owned() }
}

fn codec(id: &str) -> InstalledPlugin {
    let mut plugin = installed(id, "1.0.0");
    plugin.manifest.subscriptions = vec![PluginEvent::InspectArtifact];
    plugin.manifest.prompt_slots = vec![];
    plugin.manifest.commands = vec![];
    plugin.manifest.macros = vec![];
    plugin.manifest.requested_capabilities =
        vec![PluginCapability::ArtifactCodec, PluginCapability::InspectArtifact];
    plugin.manifest.artifact_codec = Some(ArtifactCodecDeclaration {
        interface_versions: vec![ARTIFACT_CODEC_INTERFACE_VERSION.to_owned()],
        formats: vec!["scene".to_owned()],
    });
    plugin
}

fn registration(plugin: &InstalledPlugin) -> ArtifactInspectorRegistration {
    ArtifactInspectorRegistration {
        id: plugin.manifest.id.clone(),
        version: plugin.manifest.version.clone(),
        component_sha256: plugin.manifest.component_sha256.clone(),
        capabilities: plugin.manifest.requested_capabilities.clone(),
    }
}

fn scene_bundle() -> ArtifactCodecBundle {
    ArtifactCodecBundle {
        artifact_kind: ArtifactKind::Lorebook,
        source_format: "json".to_owned(),
        payload: "e30=".to_owned(),
        payload_sha256: ContentHash::new([0; 32]),
        assets: vec![],
        supplementary_artifacts: vec![],
    }
}

#[test]
fn the_only_codec_that_knows_a_file_decodes_it() {
    let registry = PluginRegistry::new("/plugins".to_owned());
    let (first, second) = (codec("a"), codec("b"));
    let mut other = installed("c", "1.0.0");
    other.manifest.requested_capabilities = vec![PluginCapability::InspectArtifact];
    let listing = vec![first.clone(), second.clone(), other.clone()];
    let registrations = vec![registration(&second), registration(&other), registration(&first)];
    let version = ARTIFACT_CODEC_INTERFACE_VERSION.to_owned();
    let detect = |compatible| ArtifactCodecOutput::Detect {
        interface_version: version.clone(),
        compatible,
        compatibility: vec![item("lossy")],
    };
    let decode = |format: &str| ArtifactCodecOutput::Decode {
        interface_version: version.clone(),
        format: format.to_owned(),
        bundle: scene_bundle(),
        compatibility: vec![item("late")],
    };
    let step = |answers| {
        decode_artifact_with_codec(&registry, &registrations, &listing, &vec![1, 2, 3], answers)
    };
    match step(vec![]) {
        CodecStep::Ask { plugin, question: ArtifactCodecInput::Detect { source, .. }, .. } => {
            assert_eq!(plugin.manifest.id, "b");
            assert_eq!(source, "AQID");
        }
        _ => panic!("the first codec is asked"),
    }
    match step(vec![detect(false)]) {
        CodecStep::Ask { plugin, question: ArtifactCodecInput::Detect { .. }, .. } => {
            assert_eq!(plugin.manifest.id, "a");
        }
        _ => panic!("the second codec is asked"),
    }
    assert!(matches!(step(vec![detect(false), detect(false)]), CodecStep::Done(Ok(None))));
    assert!(matches!(
        step(vec![detect(true), detect(true)]),
        CodecStep::Done(Err(EngineError::ArtifactCodec(
            ArtifactCodecError::AmbiguousFormatClaims(ids)
        ))) if ids == ["a", "b"]
    ));
    match step(vec![detect(false), detect(true)]) {
        CodecStep::Ask { plugin, question: ArtifactCodecInput::Decode { .. }, grant } => {
            assert_eq!(plugin.manifest.id, "a");
            assert!(grant.enabled);
        }
        _ => panic!("the codec that knows it is asked"),
    }
    match step(vec![detect(false), detect(true), decode("scene")]) {
        CodecStep::Done(Ok(Some((_, provenance)))) => {
            assert_eq!(provenance.plugin_id, "a");
            assert_eq!(provenance.compatibility, [item("lossy"), item("late")]);
        }
        _ => panic!("the file is decoded"),
    }
    assert!(matches!(
        step(vec![detect(false), detect(true), decode("other")]),
        CodecStep::Done(Err(EngineError::ArtifactCodec(ArtifactCodecError::InvalidFormat(_))))
    ));
    assert!(matches!(
        step(vec![decode("scene")]),
        CodecStep::Done(Err(EngineError::ArtifactCodec(ArtifactCodecError::Operation { .. })))
    ));
    assert!(matches!(
        decode_artifact_with_codec(
            &registry,
            &registrations,
            &vec![],
            &vec![1, 2, 3],
            vec![]
        ),
        CodecStep::Done(Err(EngineError::PluginNotFound { id, .. })) if id == "b"
    ));
}

#[test]
fn an_artifact_is_written_by_the_codec_that_read_it() {
    let registry = PluginRegistry::new("/plugins".to_owned());
    let plugin = codec("a");
    let listing = vec![plugin.clone()];
    let provenance = ArtifactCodecProvenance {
        plugin_id: "a".to_owned(),
        version: "1.0.0".to_owned(),
        component_sha256: plugin.manifest.component_sha256.clone(),
        interface_version: ARTIFACT_CODEC_INTERFACE_VERSION.to_owned(),
        format: "scene".to_owned(),
        compatibility: vec![],
        supplementary_artifacts: vec![],
    };
    let step = |packed, answer| {
        export_artifact_with_codec(&registry, &listing, Some(&provenance), packed, answer)
    };
    assert!(matches!(
        export_artifact_with_codec(&registry, &listing, None, None, None),
        ExportStep::Plain
    ));
    assert!(matches!(step(None, None), ExportStep::Pack));
    match step(Some(scene_bundle()), None) {
        ExportStep::Ask { question: ArtifactCodecInput::Encode { format, .. }, .. } => {
            assert_eq!(format, "scene");
        }
        _ => panic!("the codec is asked"),
    }
    let written = ArtifactCodecOutput::Encode {
        interface_version: ARTIFACT_CODEC_INTERFACE_VERSION.to_owned(),
        source: "AQID".to_owned(),
        compatibility: vec![],
    };
    assert!(matches!(
        step(Some(scene_bundle()), Some(written)),
        ExportStep::Done(Ok(file)) if file == [1, 2, 3]
    ));
    assert!(matches!(
        export_artifact_with_codec(&registry, &vec![], Some(&provenance), None, None),
        ExportStep::Done(Err(EngineError::PluginNotFound { .. }))
    ));
    let limits = codec_limits();
    assert_eq!((limits.input_bytes, limits.memory_bytes), (16 << 20, 64 << 20));
    let asked = codec_input(&plugin.manifest, json(r#"{"operation": "detect"}"#));
    assert_eq!(asked.event, PluginEvent::InspectArtifact);
    assert_eq!(asked.session, Json::Null);
}

#[test]
fn replies_of_a_codec_are_held_to_their_form() {
    let version = ARTIFACT_CODEC_INTERFACE_VERSION.to_owned();
    let detect = |compatible| ArtifactCodecOutput::Detect {
        interface_version: version.clone(),
        compatible,
        compatibility: vec![item("lossy")],
    };
    assert_eq!(accept_detection(detect(true)).unwrap(), Some(vec![item("lossy")]));
    assert_eq!(accept_detection(detect(false)).unwrap(), None);
    assert!(matches!(
        accept_detection(ArtifactCodecOutput::Detect {
            interface_version: "other".to_owned(),
            compatible: true,
            compatibility: vec![],
        }),
        Err(ArtifactCodecError::InterfaceVersion { actual, .. }) if actual == "other"
    ));
    assert!(matches!(
        accept_encoding(detect(true)),
        Err(ArtifactCodecError::Operation { expected: "encode", actual: "detect" })
    ));
    let encode = |source: &str| ArtifactCodecOutput::Encode {
        interface_version: version.clone(),
        source: source.to_owned(),
        compatibility: vec![],
    };
    assert_eq!(accept_encoding(encode("AQID")).unwrap(), [1, 2, 3]);
    assert!(matches!(
        accept_encoding(encode("!")),
        Err(ArtifactCodecError::InvalidBase64 { .. })
    ));
    assert_eq!(codec_source(&vec![1, 2, 3]), Some("AQID".to_owned()));
    assert!(matches!(
        validate_codec_compatibility(&vec![item("x"); MAX_CODEC_COMPATIBILITY_ITEMS + 1]),
        Err(ArtifactCodecError::CompatibilityCount { .. })
    ));
    assert!(matches!(
        validate_codec_compatibility(&vec![item("")]),
        Err(ArtifactCodecError::InvalidCompatibility { code }) if code.is_empty()
    ));
    assert_eq!(settle_claims(&vec![]).unwrap(), false);
    assert_eq!(settle_claims(&vec!["a".to_owned()]).unwrap(), true);
    assert!(matches!(
        settle_claims(&vec!["a".to_owned(), "b".to_owned()]),
        Err(ArtifactCodecError::AmbiguousFormatClaims(ids)) if ids == ["a", "b"]
    ));
}

#[test]
fn codecs_are_run_with_their_own_capability_alone() {
    let codec_capabilities =
        vec![PluginCapability::InspectArtifact, PluginCapability::ArtifactCodec];
    let mut manifest = manifest("codec", "1.0.0");
    manifest.requested_capabilities = codec_capabilities.clone();
    manifest.subscriptions = vec![PluginEvent::InspectArtifact];
    manifest.prompt_slots = vec![];
    manifest.commands = vec![];
    manifest.macros = vec![];
    manifest.artifact_codec = Some(ArtifactCodecDeclaration {
        interface_versions: vec![ARTIFACT_CODEC_INTERFACE_VERSION.to_owned()],
        formats: vec!["charx".to_owned()],
    });
    let granted = codec_grant(&manifest, &codec_capabilities).unwrap();
    assert_eq!(granted.capabilities, codec_capabilities);
    assert!(matches!(
        codec_grant(&manifest, &vec![PluginCapability::ArtifactCodec]),
        Err(ArtifactCodecError::InvalidPluginContract(id)) if id == "codec"
    ));
    let bundle = ArtifactCodecBundle {
        artifact_kind: ArtifactKind::Lorebook,
        source_format: "json".to_owned(),
        payload: String::new(),
        payload_sha256: ContentHash::new([0; 32]),
        assets: vec![],
        supplementary_artifacts: vec![],
    };
    let decode = |format: &str| ArtifactCodecOutput::Decode {
        interface_version: ARTIFACT_CODEC_INTERFACE_VERSION.to_owned(),
        format: format.to_owned(),
        bundle: bundle.clone(),
        compatibility: vec![item("b")],
    };
    let (_, provenance) = accept_decoding(&manifest, vec![item("a")], decode("charx")).unwrap();
    assert_eq!(provenance.plugin_id, "codec");
    assert_eq!(provenance.format, "charx");
    assert_eq!(provenance.compatibility, [item("a"), item("b")]);
    assert!(accept_decoding(&manifest, vec![], decode("png")).is_err());
}

#[test]
fn exactly_one_output_is_taken() {
    let output = PluginEffect::Output { value: Json::Bool(true) };
    assert_eq!(*take_output(&vec![output.clone()], true).unwrap(), Json::Bool(true));
    assert_eq!(
        take_output(&vec![output.clone(), output], false),
        Err(PluginError::ArtifactInspectionOutputCount(2))
    );
}
