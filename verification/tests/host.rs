use stcli_core::credential::{
    delete_credential, get_credential, set_credential, settle, CredentialError, KeyringReply,
};
use stcli_core::json::{Json, JsonNumber, NumberForm};
use stcli_core::persona::{PersonaDescription, PersonaStore, PersonaStoreError};
use stcli_core::protocol::{CliEnvelope, CliError, CLI_SCHEMA_V1};

fn order(value: f64) -> i64 {
    if value >= 0.0 {
        value.abs().to_bits() as i64
    } else {
        -((-value).to_bits() as i64)
    }
}

fn convert(value: &serde_json::Value) -> Json {
    match value {
        serde_json::Value::Null => Json::Null,
        serde_json::Value::Bool(b) => Json::Bool(*b),
        serde_json::Value::Number(n) => {
            let form = if let Some(u) = n.as_u64() {
                NumberForm::Unsigned(u)
            } else if let Some(i) = n.as_i64() {
                NumberForm::Negative(i)
            } else {
                NumberForm::Real(n.to_string())
            };
            Json::Number(JsonNumber { form, order: order(n.as_f64().unwrap()) })
        }
        serde_json::Value::String(s) => Json::Text(s.clone()),
        serde_json::Value::Array(items) => Json::Array(items.iter().map(convert).collect()),
        serde_json::Value::Object(members) => {
            Json::Object(members.iter().map(|(k, v)| (k.clone(), convert(v))).collect())
        }
    }
}

fn json(source: &str) -> Json {
    convert(&serde_json::from_str(source).unwrap())
}

#[test]
fn success_envelope_uses_public_v1_schema() {
    let envelope =
        CliEnvelope::success("compat.verify".to_owned(), json(r#"{"passed": 3}"#));
    assert_eq!(envelope.schema, CLI_SCHEMA_V1);
    assert!(envelope.ok);
    assert!(envelope.error.is_none());
    assert_eq!(envelope.command, "compat.verify");
    assert_eq!(envelope.data, Some(json(r#"{"passed": 3}"#)));
}

#[test]
fn failure_envelope_has_no_data() {
    let envelope = CliEnvelope::<Json>::failure(
        "compat.verify".to_owned(),
        CliError {
            code: "invalid_fixture".to_owned(),
            message: "fixture failed".to_owned(),
            details: None,
        },
    );
    assert!(!envelope.ok);
    assert!(envelope.data.is_none());
    assert_eq!(envelope.error.unwrap().code, "invalid_fixture");
}

#[test]
fn stalled_keyring_operation_times_out_with_store_error() {
    let result: Result<String, CredentialError> = settle(KeyringReply::Silent, 0);
    assert!(matches!(
        result,
        Err(CredentialError::Store(message))
            if message.contains("did not respond within")
                && message.contains("api_key_env")
    ));
    assert!(matches!(
        get_credential(KeyringReply::Silent),
        Err(CredentialError::Store(message)) if message.contains("within 5 seconds;")
    ));
}

#[test]
fn replies_of_a_keyring_are_settled() {
    assert_eq!(get_credential(KeyringReply::Value("secret".to_owned())), Ok("secret".to_owned()));
    assert_eq!(get_credential(KeyringReply::NoEntry), Err(CredentialError::Missing));
    assert_eq!(set_credential(KeyringReply::Value(())), Ok(()));
    assert_eq!(
        delete_credential(KeyringReply::Failure("locked".to_owned())),
        Err(CredentialError::Store("locked".to_owned()))
    );
}

#[test]
fn personas_are_inserted_updated_and_removed() {
    let mut store = PersonaStore::empty();
    store.insert_with("a".to_owned(), "Ann".to_owned(), "first".to_owned());
    store.insert_with("b".to_owned(), "Bob".to_owned(), "second".to_owned());
    let ann = store.get("a").unwrap();
    assert_eq!((ann.name.as_str(), ann.description.as_str()), ("Ann", "first"));
    store.update("a", "Anna".to_owned(), "third".to_owned()).unwrap();
    assert_eq!(store.get("a").unwrap().name, "Anna");
    assert_eq!(
        store.update("c", "x".to_owned(), "y".to_owned()),
        Err(PersonaStoreError::PersonaNotFound("c".to_owned()))
    );
    assert_eq!(store.personas().len(), 2);
    assert!(store.remove("a"));
    assert!(!store.remove("a"));
    assert!(store.get("a").is_none());
    let key = store.insert("Cleo".to_owned(), "".to_owned());
    assert_eq!(store.get(&key).unwrap().name, "Cleo");
}

#[test]
fn duplicates_have_names_of_their_own() {
    let mut store = PersonaStore::empty();
    store.insert_with("a".to_owned(), "Ann".to_owned(), "first".to_owned());
    store.duplicate_with("a", "b".to_owned()).unwrap();
    store.duplicate_with("a", "c".to_owned()).unwrap();
    let names: Vec<String> = store.personas().iter().map(|persona| persona.name.clone()).collect();
    assert_eq!(names, ["Ann", "Ann-copy", "Ann-copy-2"]);
    assert_eq!(store.get("c").unwrap().description, "first");
    assert!(store.duplicate("none").is_err());
}

#[test]
fn copies_keep_all_that_is_known_of_a_persona() {
    let mut store = PersonaStore {
        personas: vec![("a".to_owned(), "Ann".to_owned())],
        persona_descriptions: vec![(
            "a".to_owned(),
            PersonaDescription {
                description: "first".to_owned(),
                position: 4,
                metadata: vec![("depth".to_owned(), Json::Text("two".to_owned()))],
            },
        )],
        default_persona: Some("a".to_owned()),
        metadata: vec![],
    };
    let known = |store: &PersonaStore, key: &str| {
        store.persona_descriptions.iter().find(|(k, _)| k == key).map(|(_, entry)| entry.clone())
    };
    let key = store.duplicate("a").unwrap();
    assert!(key.starts_with("stcli-"));
    assert_eq!(store.get(&key).unwrap().name, "Ann-copy");
    assert_eq!(store.get(&key).unwrap().position, 4);
    assert_eq!(known(&store, &key), known(&store, "a"));
    assert_eq!(store.get("a").unwrap().name, "Ann");
    assert_eq!(store.default_persona().map(String::as_str), Some("a"));
    store.update("a", "Anna".to_owned(), "other".to_owned()).unwrap();
    let updated = known(&store, "a").unwrap();
    assert_eq!(updated.description, "other");
    assert_eq!(updated.position, 4);
    assert_eq!(updated.metadata, [("depth".to_owned(), Json::Text("two".to_owned()))]);
    assert!(store.remove("a"));
    assert_eq!(known(&store, &key).unwrap().metadata, updated.metadata);
    let before = store.clone();
    assert!(matches!(
        store.duplicate("a"),
        Err(PersonaStoreError::PersonaNotFound(missing)) if missing == "a"
    ));
    assert_eq!(store, before);
    let fresh = store.insert("Bob".to_owned(), "new".to_owned());
    assert!(known(&store, &fresh).unwrap().metadata.is_empty());
}

#[test]
fn backups_are_merged_into_a_store() {
    let mut store = PersonaStore::empty();
    store.insert_with("a".to_owned(), "Ann".to_owned(), "first".to_owned());
    let imported = PersonaStore {
        personas: vec![("b".to_owned(), "Bob".to_owned())],
        persona_descriptions: vec![(
            "b".to_owned(),
            PersonaDescription { description: "second".to_owned(), position: 1, metadata: vec![] },
        )],
        default_persona: Some("b".to_owned()),
        metadata: vec![],
    };
    assert_eq!(store.import_backup(imported), 1);
    assert_eq!(store.personas().len(), 2);
    assert_eq!(store.get("b").unwrap().position, 1);
    assert_eq!(store.default_persona().map(String::as_str), Some("b"));
}
