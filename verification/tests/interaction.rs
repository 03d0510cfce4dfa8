use stcli_core::identity::{ContentHash, EntityId};
use stcli_core::interaction::declaration::{
    load_declaration, Annotation, DeclaredAction, DeclaredGroup, InteractionDeclaration,
    InteractionSupport, INTERACTION_SCHEMA,
};
use stcli_core::interaction::schema::{parse_field, FieldKind, InteractionControl};
use stcli_core::interaction::settings::effective_settings;
use stcli_core::interaction::submission::{
    decide_submission, Decision, InteractionEdit, InteractionSubmission,
};
use stcli_core::interaction::surface::{build_surface, InteractionSurface, SurfaceBuild};
use stcli_core::interaction::value::InteractionValue;
use stcli_core::json::{Json, JsonNumber, NumberForm};
use stcli_core::plugin::{
    InstalledPlugin, PluginCapability, PluginError, PluginManifest, PluginRuntime,
    MANIFEST_SCHEMA,
};

fn order(value: f64) -> i64 {
    if value >= 0.0 {
        value.abs().to_bits() as i64
    } else {
        -((-value).to_bits() as i64)
    }
}

fn convert(value: &serde_json::Value) -> Json {
    match value {
        serde_json::Value::Null => Json::Null,
        serde_json::Value::Bool(b) => Json::Bool(*b),
        serde_json::Value::Number(n) => {
            let form = if let Some(u) = n.as_u64() {
                NumberForm::Unsigned(u)
            } else if let Some(i) = n.as_i64() {
                NumberForm::Negative(i)
            } else {
                NumberForm::Real(n.to_string())
            };
            Json::Number(JsonNumber { form, order: order(n.as_f64().unwrap()) })
        }
        serde_json::Value::String(s) => Json::Text(s.clone()),
        serde_json::Value::Array(items) => Json::Array(items.iter().map(convert).collect()),
        serde_json::Value::Object(members) => {
            Json::Object(members.iter().map(|(k, v)| (k.clone(), convert(v))).collect())
        }
    }
}

fn json(source: &str) -> Json {
    convert(&serde_json::from_str(source).unwrap())
}

fn digest() -> ContentHash {
    ContentHash::new([3; 32])
}

fn manifest() -> PluginManifest {
    PluginManifest {
        schema: MANIFEST_SCHEMA.to_owned(),
        id: "org.example".to_owned(),
        version: "1.0.0".to_owned(),
        engine: "*".to_owned(),
        runtime: PluginRuntime::StBridge,
        component: "main.js".to_owned(),
        component_sha256: digest(),
        dependencies: vec![],
        license: "MIT".to_owned(),
        subscriptions: vec![],
        prompt_slots: vec![],
        commands: vec!["refresh".to_owned()],
        macros: vec![],
        settings_schema: Some("settings.json".to_owned()),
        requested_capabilities: vec![PluginCapability::ReadSession],
        before: vec![],
        after: vec![],
        generate_interceptor: None,
        display_name: None,
        artifact_codec: None,
    }
}

const SCHEMA: &str = r#"{"type": "object", "x-stcli-interaction": {}, "properties": {
    "depth": {"type": "integer", "x-stcli-control": "number", "title": "Depth",
        "description": "How far", "default": 2, "minimum": 1, "maximum": 5},
    "mode": {"type": "string", "x-stcli-control": "choice", "title": "Mode",
        "description": "How", "default": "calm", "enum": ["calm", "wild"],
        "x-stcli-choice-labels": ["Calm", "Wild"]}
}}"#;

fn annotation() -> Annotation {
    Annotation {
        schema: INTERACTION_SCHEMA.to_owned(),
        id: "settings".to_owned(),
        component_sha256: digest(),
        support: InteractionSupport::Available,
        support_reason: None,
        groups: vec![DeclaredGroup {
            label: "General".to_owned(),
            help: "All of it".to_owned(),
            fields: vec!["depth".to_owned(), "mode".to_owned()],
        }],
        actions: vec![DeclaredAction {
            id: "refresh".to_owned(),
            label: "Refresh".to_owned(),
            help: "Again".to_owned(),
            command: Some("refresh".to_owned()),
            support: InteractionSupport::Available,
            support_reason: None,
            requires_branch: false,
            requires_completed_attempt: false,
            capabilities: vec![PluginCapability::ReadSession],
        }],
    }
}

fn declaration() -> InteractionDeclaration {
    load_declaration(&manifest(), &json(SCHEMA), Ok(annotation())).unwrap().unwrap()
}

fn surface(declaration: &InteractionDeclaration, persisted: &str) -> InteractionSurface {
    let installed = InstalledPlugin {
        manifest: manifest(),
        directory: "/plugins/x".to_owned(),
        inspection_enabled: false,
    };
    build_surface(SurfaceBuild {
        session_id: EntityId::from_ulid(1),
        branch_id: None,
        configuration_revision: &ContentHash::new([5; 32]),
        installed: &installed,
        declaration,
        pinned_settings: &json(persisted),
        persisted_settings: &json(persisted),
        enabled: true,
        capabilities: &vec![PluginCapability::ReadSession, PluginCapability::WriteOwnState],
        provider_profiles: &vec![],
        characters: &vec![],
        completed_attempt: false,
        scripting: true,
    })
    .unwrap()
}

fn number(n: u64) -> JsonNumber {
    JsonNumber { form: NumberForm::Unsigned(n), order: order(n as f64) }
}

#[test]
fn declarations_are_loaded() {
    let declaration = declaration();
    assert_eq!(declaration.id, "settings");
    assert_eq!(declaration.fields.len(), 2);
    assert_eq!(declaration.fields[0].0, "depth");
    assert_eq!(declaration.fields[0].1.kind, FieldKind::Integer);
    assert_eq!(declaration.fields[1].1.control, InteractionControl::Choice);
    assert_eq!(declaration.actions.len(), 1);
    assert_eq!(load_declaration(&manifest(), &json("{}"), Ok(annotation())), Ok(None));
}

#[test]
fn faults_of_a_declaration_are_told() {
    let refused = |change: fn(&mut Annotation)| {
        let mut annotation = annotation();
        change(&mut annotation);
        load_declaration(&manifest(), &json(SCHEMA), Ok(annotation))
    };
    assert!(matches!(
        refused(|a| a.component_sha256 = ContentHash::new([0; 32])),
        Err(PluginError::DigestMismatch)
    ));
    let message = |result| match result {
        Err(PluginError::InvalidManifest(message)) => message,
        other => panic!("{other:?}"),
    };
    assert_eq!(
        message(refused(|a| a.schema = "other".to_owned())),
        "unsupported interaction schema 'other'"
    );
    assert_eq!(
        message(refused(|a| a.id = " ".to_owned())),
        "interaction id must not be empty"
    );
    assert_eq!(
        message(refused(|a| a.groups[0].fields.push("depth".to_owned()))),
        "duplicate interaction field 'depth'"
    );
    assert_eq!(
        message(refused(|a| a.groups[0].fields.push("none".to_owned()))),
        "interaction field 'none' is not a property"
    );
    assert_eq!(
        message(refused(|a| a.actions[0].command = Some("other".to_owned()))),
        "interaction action 'refresh' binds undeclared command 'other'"
    );
    assert_eq!(
        message(refused(|a| a.support = InteractionSupport::Unavailable)),
        "non-available interaction support requires a concrete reason"
    );
    let mut wasm = manifest();
    wasm.runtime = PluginRuntime::Wasm;
    assert_eq!(
        message(load_declaration(&wasm, &json(SCHEMA), Ok(annotation()))),
        "declared interactions require st-bridge runtime"
    );
}

#[test]
fn zero_is_one_choice_whatever_its_sign() {
    let declared = parse_field(
        "f",
        &json(
            r#"{"type": "number", "x-stcli-control": "choice", "title": "T", "description": "D",
                "default": -0.0, "enum": [0.0, 1.5], "x-stcli-choice-labels": ["None", "Some"]}"#,
        ),
    );
    assert!(declared.is_ok());
    assert_eq!(json("-0.0"), json("0.0"));
    assert_ne!(json("0.0"), json("0"));
    assert!(json(r#"{"a": [-0.0, 2]}"#).same(&json(r#"{"a": [0.0, 2]}"#)));
    assert!(!json(r#"{"a": [0.5]}"#).same(&json(r#"{"a": [-0.5]}"#)));
}

#[test]
fn fields_are_held_to_their_form() {
    let refused = |source: &str| match parse_field("f", &json(source)) {
        Err(PluginError::InvalidManifest(message)) => message,
        other => panic!("{other:?}"),
    };
    assert_eq!(refused("3"), "interaction field 'f' must be an object");
    assert_eq!(
        refused(r#"{"pattern": "x"}"#),
        "interaction field 'f' uses unsupported keyword 'pattern'"
    );
    assert_eq!(
        refused(r#"{"type": "boolean", "x-stcli-control": "text", "title": "t", "description": "d", "default": true}"#),
        "interaction field 'f' control does not match its type"
    );
}

#[test]
fn settings_take_their_defaults() {
    let declaration = declaration();
    let settings =
        effective_settings(&declaration, &json("{}"), &json(r#"{"mode": "wild"}"#)).unwrap();
    assert_eq!(settings[0].1, Json::Number(number(2)));
    assert_eq!(settings.len(), 2);
}

fn save(surface: &InteractionSurface, value: InteractionValue) -> InteractionSubmission {
    InteractionSubmission::Save {
        target: surface.save.target.clone(),
        edits: vec![InteractionEdit { target: surface.groups[0].fields[0].target.clone(), value }],
    }
}

#[test]
fn submissions_are_decided() {
    let declaration = declaration();
    let surface = surface(&declaration, r#"{"depth": 2}"#);
    let pinned = json(r#"{"depth": 2, "other": true}"#);
    let decide = |submission: &InteractionSubmission| {
        decide_submission(
            &surface,
            &declaration,
            &pinned,
            &surface.identity,
            &surface.revision,
            submission,
        )
    };
    match decide(&save(&surface, InteractionValue::Number(number(4)))) {
        Decision::Save { settings } => {
            let shown = match &settings {
                Json::Object(members) => members,
                _ => panic!("not an object"),
            };
            assert!(shown.contains(&("depth".to_owned(), Json::Number(number(4)))));
        }
        other => panic!("{other:?}"),
    }
    assert!(matches!(
        decide(&save(&surface, InteractionValue::Number(number(9)))),
        Decision::RejectEdit { .. }
    ));
    assert!(matches!(
        decide(&InteractionSubmission::Invoke { target: surface.actions[0].target.clone() }),
        Decision::Invoke { command } if command == "refresh"
    ));
    assert!(matches!(
        decide(&InteractionSubmission::Invoke { target: ContentHash::new([0; 32]) }),
        Decision::Reject { .. }
    ));
    assert!(matches!(
        decide_submission(
            &surface,
            &declaration,
            &pinned,
            &surface.identity,
            &ContentHash::new([0; 32]),
            &save(&surface, InteractionValue::Number(number(4)))
        ),
        Decision::Reject { .. }
    ));
}

#[test]
fn surfaces_have_a_revision_of_their_values() {
    let declaration = declaration();
    let first = surface(&declaration, r#"{"depth": 2}"#);
    let second = surface(&declaration, r#"{"depth": 3}"#);
    assert_eq!(first.identity.surface_id, second.identity.surface_id);
    assert_ne!(first.revision, second.revision);
    assert_eq!(
        first.groups[0].fields[0].value,
        Some(InteractionValue::Number(number(2)))
    );
    assert_eq!(first.groups[0].fields[1].choices.len(), 2);
}

#[test]
fn values_are_read_as_they_are_written() {
    let value = InteractionValue::Text("x".to_owned());
    assert_eq!(value.to_json(), Json::Text("x".to_owned()));
    assert_eq!(InteractionValue::from_json(&value.to_json()), Some(value));
    assert_eq!(InteractionValue::from_json(&Json::Null), None);
}
