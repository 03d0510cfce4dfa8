use stcli_core::artifact::revision::content_blob_hash;
use stcli_core::config::Config;
use stcli_core::identity::{ContentHash, EntityId};
use stcli_core::inference::{
    after_marking, choose_provider, conclude_inference, effective_settings,
    inference_request_hash, validate_inference_receipt, validate_persisted_inference_receipt,
    AttemptMark, BackgroundAttempt, InferenceBroker, InferenceError, InferenceInvocation,
    InferenceMode, InferencePolicy, InferenceRequest, InferenceResponse, InferenceStep,
    InferenceTransport, InferenceTransportError, ProviderEvent, ProviderResult,
    StubInferenceTransport,
};
use stcli_core::json::{Json, JsonNumber, NumberForm};
use stcli_core::provider::ProviderSettings;
use stcli_core::session::AttemptStatus;

fn order(value: f64) -> i64 {
    if value >= 0.0 {
        value.abs().to_bits() as i64
    } else {
        -((-value).to_bits() as i64)
    }
}

fn convert(value: &serde_json::Value) -> Json {
    match value {
        serde_json::Value::Null => Json::Null,
        serde_json::Value::Bool(b) => Json::Bool(*b),
        serde_json::Value::Number(n) => {
            let form = if let Some(u) = n.as_u64() {
                NumberForm::Unsigned(u)
            } else if let Some(i) = n.as_i64() {
                NumberForm::Negative(i)
            } else {
                NumberForm::Real(n.to_string())
            };
            Json::Number(JsonNumber { form, order: order(n.as_f64().unwrap()) })
        }
        serde_json::Value::String(s) => Json::Text(s.clone()),
        serde_json::Value::Array(items) => Json::Array(items.iter().map(convert).collect()),
        serde_json::Value::Object(members) => {
            Json::Object(members.iter().map(|(k, v)| (k.clone(), convert(v))).collect())
        }
    }
}

fn json(source: &str) -> Json {
    convert(&serde_json::from_str(source).unwrap())
}

fn config() -> Config {
    Config {
        providers: vec![(
            "summary".to_owned(),
            ProviderSettings {
                id: "summary".to_owned(),
                base_url: "https://example.invalid".to_owned(),
                chat_completions_path: "/v1/chat/completions".to_owned(),
                api_key_env: None,
                credential_key: None,
                static_headers: vec![],
                timeout_seconds: 30,
                ca_certificate_pem: None,
                model: "stub".to_owned(),
                stream: false,
            },
        )],
        enabled_extensions: vec![],
    }
}

fn invocation(capability_granted: bool, mode: InferenceMode) -> InferenceInvocation {
    InferenceInvocation {
        policy: InferencePolicy { capability_granted, mode },
        default_profile: "summary".to_owned(),
        session_id: None,
        branch_id: None,
        parent_attempt_id: None,
        config_hash: None,
        caller: "fixture".to_owned(),
    }
}

fn request(prompt: &str, generation_settings: &str) -> InferenceRequest {
    InferenceRequest {
        system_prompt: None,
        prompt: prompt.to_owned(),
        profile_name: "summary".to_owned(),
        generation_settings: json(generation_settings),
    }
}

const PROVIDER_REQUEST: &str = r#"{"model": "stub", "temperature": 0.2, "stream": false,
    "messages": [{"role": "user", "content": "Summarize this"}]}"#;

fn outcome(step: InferenceStep) -> Result<InferenceResponse, InferenceError> {
    match step {
        InferenceStep::Done(outcome) => outcome,
        other => panic!("{other:?}"),
    }
}

#[test]
fn secondary_inference_stub_records_and_validates_hashes() {
    let broker = InferenceBroker::stub();
    let transport = StubInferenceTransport {
        responses: vec![("summary".to_owned(), "Summary text".to_owned())],
    };
    let invocation = invocation(true, InferenceMode::DryRun);
    let request = request("Summarize this", r#"{"temperature": 0.2}"#);
    let response = outcome(broker.infer(
        &config(),
        &invocation,
        &request,
        Ok(json(PROVIDER_REQUEST)),
        None,
        &transport,
    ))
    .unwrap();
    assert_eq!(response.text, "Summary text");
    validate_inference_receipt(&response.receipt).unwrap();
    assert!(!response.receipt.request_hash.text().is_empty());
    assert_eq!(response.receipt.response_hash, content_blob_hash(b"Summary text"));
}

#[test]
fn secondary_inference_denies_without_capability() {
    let invocation = invocation(false, InferenceMode::Live);
    let transport = StubInferenceTransport { responses: vec![] };
    let refused = InferenceBroker::live().infer(
        &config(),
        &invocation,
        &request("x", "{}"),
        Ok(json(PROVIDER_REQUEST)),
        None,
        &transport,
    );
    assert!(matches!(
        outcome(refused),
        Err(InferenceError::Denied(message)) if message == "secondary inference denied: plugin \
            'fixture' lacks the secondary-inference capability"
    ));
}

struct Down;

impl InferenceTransport for Down {
    fn generate(
        &self,
        _settings: &ProviderSettings,
        _request: &Json,
    ) -> Result<ProviderResult, InferenceTransportError> {
        Err(InferenceTransportError("down".to_owned()))
    }
}

#[test]
fn a_live_attempt_is_begun_before_the_provider_is_asked_and_marked_after() {
    let broker = InferenceBroker::live().with_database("stcli.sqlite3".to_owned());
    let mut placed = invocation(true, InferenceMode::Live);
    placed.session_id = Some(EntityId::from_ulid(1));
    placed.branch_id = Some(EntityId::from_ulid(2));
    placed.parent_attempt_id = Some(EntityId::from_ulid(3));
    placed.config_hash = Some(ContentHash::new([0; 32]));
    let request = request("x", "{}");
    let built = || Ok(json(PROVIDER_REQUEST));
    let id = EntityId::from_ulid(4);
    assert!(matches!(
        broker.infer(&config(), &placed, &request, built(), None, &Down),
        InferenceStep::Begin(prepared) if prepared.profile_name == "summary"
    ));

    match broker.infer(&config(), &placed, &request, built(), Some(id), &Down) {
        InferenceStep::Mark { mark: AttemptMark::Failed { attempt_id, message }, outcome } => {
            assert_eq!(attempt_id, id);
            assert_eq!(message, "secondary inference transport failed: down");
            let unmarked = after_marking(outcome, Err("locked".to_owned()));
            assert!(matches!(unmarked, Err(InferenceError::Attempt(m)) if m == "locked"));
        }
        other => panic!("{other:?}"),
    }

    let transport = StubInferenceTransport {
        responses: vec![("summary".to_owned(), "text".to_owned())],
    };
    match broker.infer(&config(), &placed, &request, built(), Some(id), &transport) {
        InferenceStep::Mark { mark: AttemptMark::Completed { text, response_hash, .. }, outcome } => {
            assert_eq!(text, "text");
            assert_eq!(response_hash, content_blob_hash(b"text"));
            let response = after_marking(outcome, Ok(())).unwrap();
            assert_eq!(response.receipt.attempt_id, Some(id));
        }
        other => panic!("{other:?}"),
    }

    let unbuilt =
        broker.infer(&config(), &placed, &request, Err("no model".to_owned()), None, &Down);
    assert!(matches!(outcome(unbuilt), Err(InferenceError::Provider(m)) if m == "no model"));
}

#[test]
fn a_rehearsal_asks_no_provider() {
    let response = outcome(InferenceBroker::live().infer(
        &config(),
        &invocation(true, InferenceMode::DryRun),
        &request("x", "{}"),
        Ok(json(PROVIDER_REQUEST)),
        None,
        &Down,
    ))
    .unwrap();
    assert_eq!(response.text, "");
}

#[test]
fn a_profile_must_be_configured() {
    let mut unknown = request("x", "{}");
    unknown.profile_name = "none".to_owned();
    assert!(matches!(
        choose_provider(&config(), &invocation(true, InferenceMode::DryRun), &unknown),
        Err(InferenceError::Profile(_))
    ));
    assert!(matches!(
        choose_provider(
            &config(),
            &invocation(true, InferenceMode::DryRun),
            &request("x", "[]")
        ),
        Err(InferenceError::InvalidGenerationSettings)
    ));
}

#[test]
fn live_inference_needs_to_know_where_it_stands() {
    let broker = InferenceBroker::live().with_database("stcli.sqlite3".to_owned());
    let request = request("x", "{}");
    let mut placed = invocation(true, InferenceMode::Live);
    assert!(matches!(
        broker.prepare(&placed, &request, &json(PROVIDER_REQUEST)),
        Err(InferenceError::MissingInvocationMetadata)
    ));
    placed.session_id = Some(EntityId::from_ulid(1));
    placed.branch_id = Some(EntityId::from_ulid(2));
    placed.parent_attempt_id = Some(EntityId::from_ulid(3));
    placed.config_hash = Some(ContentHash::new([0; 32]));
    let prepared = broker.prepare(&placed, &request, &json(PROVIDER_REQUEST)).unwrap();
    assert!(prepared.asks);
    let record = prepared.record.as_ref().unwrap();
    assert_eq!(record.database, "stcli.sqlite3");
    assert_eq!(record.parent_attempt_id, EntityId::from_ulid(3));

    let attempt = EntityId::from_ulid(4);
    let usage = json(r#"{"total_tokens": 5}"#);
    let result = ProviderResult {
        text: "text".to_owned(),
        events: vec![ProviderEvent::Other, ProviderEvent::Usage { usage: usage.clone() }],
    };
    let response =
        conclude_inference(&prepared, &placed, &request, Some(attempt), Ok(result)).unwrap();
    assert_eq!(response.receipt.attempt_id, Some(attempt));
    assert_eq!(response.receipt.usage, Some(usage.clone()));
    let stored = BackgroundAttempt {
        background: true,
        parent_attempt_id: Some(EntityId::from_ulid(3)),
        caller: Some("fixture".to_owned()),
        provider_profile: Some("summary".to_owned()),
        effective_generation_settings: Some(response.receipt.effective_settings.clone()),
        provider_request_hash: Some(response.receipt.request_hash.clone()),
        response_hash: Some(response.receipt.response_hash.clone()),
        usage: Some(usage),
        status: AttemptStatus::Completed,
    };
    assert!(validate_persisted_inference_receipt(&response.receipt, Some(&stored)).is_ok());
    assert!(matches!(
        validate_persisted_inference_receipt(&response.receipt, None),
        Err(InferenceError::InvalidReceipt)
    ));
    let mut unwritable = response.receipt.clone();
    let numeral = NumberForm::Real("no number".to_owned());
    unwritable.effective_settings = Json::Number(JsonNumber { form: numeral, order: 0 });
    assert!(matches!(
        validate_persisted_inference_receipt(&unwritable, Some(&stored)),
        Err(InferenceError::Canonicalize)
    ));
    assert!(matches!(
        conclude_inference(
            &prepared,
            &placed,
            &request,
            Some(attempt),
            Err(InferenceTransportError("down".to_owned()))
        ),
        Err(InferenceError::Transport(message)) if message == "down"
    ));
}

#[test]
fn a_changed_receipt_is_invalid() {
    let transport = StubInferenceTransport {
        responses: vec![("summary".to_owned(), "text".to_owned())],
    };
    let invocation = invocation(true, InferenceMode::DryRun);
    let request = request("x", "{}");
    let mut response = outcome(InferenceBroker::stub().infer(
        &config(),
        &invocation,
        &request,
        Ok(json(PROVIDER_REQUEST)),
        None,
        &transport,
    ))
    .unwrap();
    response.receipt.text = "other".to_owned();
    assert_eq!(
        validate_inference_receipt(&response.receipt),
        Err(InferenceError::InvalidReceipt)
    );
}

#[test]
fn the_request_hash_depends_on_the_prompt() {
    let settings = effective_settings(&json(PROVIDER_REQUEST));
    let first = inference_request_hash("p", &None, "a", &settings).unwrap();
    let second = inference_request_hash("p", &None, "b", &settings).unwrap();
    let third = inference_request_hash("p", &Some("s".to_owned()), "a", &settings).unwrap();
    assert_ne!(first, second);
    assert_ne!(first, third);
    assert_eq!(first, inference_request_hash("p", &None, "a", &settings).unwrap());
}
