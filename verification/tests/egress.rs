use std::cell::RefCell;

use stcli_core::credential::{CredentialError, CredentialResolver};
use stcli_core::egress::{
    EgressAllowance, EgressBroker, EgressMode, EgressOutcome, EgressPolicy, EgressRequest,
    EgressResponse, EgressSecretInjection, EgressTransport, EgressTransportError, StubTransport,
};
use stcli_core::plugin::ScriptLog;

struct Keys;

impl CredentialResolver for Keys {
    fn get(&self, key: &str) -> Result<String, CredentialError> {
        if key == "known" {
            Ok("s3cret".to_owned())
        } else {
            Err(CredentialError::Missing)
        }
    }
}

struct Recorder {
    seen: RefCell<Vec<EgressRequest>>,
}

impl EgressTransport for Recorder {
    fn roundtrip(&self, request: &EgressRequest) -> Result<EgressResponse, EgressTransportError> {
        self.seen.borrow_mut().push(request.clone());
        Ok(EgressResponse {
            status: 201,
            status_text: "Created".to_owned(),
            headers: vec![],
            body: "made".to_owned(),
        })
    }
}

fn policy(secret: Option<&str>) -> EgressPolicy {
    EgressPolicy {
        capability_granted: true,
        allowances: vec![EgressAllowance {
            domain: "Example.com".to_owned(),
            secret: secret.map(|key| EgressSecretInjection {
                credential_key: key.to_owned(),
                header: "Authorization".to_owned(),
                value_template: "Bearer {secret}".to_owned(),
            }),
        }],
    }
}

fn request(url: &str) -> EgressRequest {
    EgressRequest {
        url: url.to_owned(),
        method: "post".to_owned(),
        headers: vec![("authorization".to_owned(), "mine".to_owned())],
        body: Some("{}".to_owned()),
    }
}

fn fetch(policy: &EgressPolicy, url: &str) -> (EgressOutcome, Vec<EgressRequest>, Vec<ScriptLog>) {
    let transport = Recorder { seen: RefCell::new(vec![]) };
    let mut logs = vec![];
    let outcome = EgressBroker::live().fetch(
        &transport,
        &Keys,
        "plugin",
        policy,
        EgressMode::Live,
        &request(url),
        &mut logs,
    );
    (outcome, transport.seen.into_inner(), logs)
}

fn refusal(policy: &EgressPolicy, url: &str) -> String {
    let (outcome, seen, logs) = fetch(policy, url);
    assert!(!outcome.ok && outcome.receipt.is_none() && seen.is_empty());
    assert_eq!(outcome.response.status, 0);
    assert_eq!(logs.len(), 1);
    logs[0].message.clone()
}

#[test]
fn requests_that_are_not_allowed_are_not_sent() {
    let mut denied = policy(None);
    denied.capability_granted = false;
    assert_eq!(
        refusal(&denied, "https://example.com/"),
        "egress denied: plugin 'plugin' lacks the brokered-egress capability"
    );
    assert_eq!(
        refusal(&policy(None), "not a url"),
        "egress denied: 'not a url' is not a valid URL"
    );
    assert_eq!(
        refusal(&policy(None), "http://example.com/"),
        "egress denied: only https URLs are brokered (http://example.com/)"
    );
    assert_eq!(
        refusal(&policy(None), "https://other.com/"),
        "egress denied: 'other.com' is not in the egress allow-list for 'plugin'"
    );
    assert_eq!(
        refusal(&policy(Some("unknown")), "https://example.com/"),
        "egress denied: credential 'unknown' is unavailable for 'example.com'"
    );
}

#[test]
fn a_secret_takes_the_place_of_a_header() {
    let (outcome, seen, logs) = fetch(&policy(Some("known")), "https://EXAMPLE.com/path");
    assert!(outcome.ok && logs.is_empty());
    assert_eq!(seen.len(), 1);
    assert_eq!(
        seen[0].headers,
        [("Authorization".to_owned(), "Bearer s3cret".to_owned())]
    );
    assert_eq!(seen[0].method, "POST");
    let receipt = outcome.receipt.unwrap();
    assert_eq!(receipt.status, 201);
    assert_eq!(receipt.body, "made");
    assert_eq!(receipt.url, "https://EXAMPLE.com/path");
}

#[test]
fn the_receipt_does_not_depend_on_the_secret_but_on_its_header() {
    let (with, _, _) = fetch(&policy(Some("known")), "https://example.com/");
    let (without, _, _) = fetch(&policy(None), "https://example.com/");
    let (again, _, _) = fetch(&policy(None), "https://example.com/");
    let hash = |outcome: EgressOutcome| outcome.receipt.unwrap().request_hash;
    let plain = hash(without);
    assert_ne!(hash(with), plain);
    assert_eq!(hash(again), plain);
}

#[test]
fn nothing_is_sent_in_a_dry_run() {
    let transport = Recorder { seen: RefCell::new(vec![]) };
    let mut logs = vec![];
    let outcome = EgressBroker::live().fetch(
        &transport,
        &Keys,
        "plugin",
        &policy(None),
        EgressMode::DryRun,
        &request("https://example.com/"),
        &mut logs,
    );
    assert!(transport.seen.borrow().is_empty());
    assert_eq!(outcome.response.status, 200);
    assert!(outcome.ok);
}

#[test]
fn a_stub_answers_from_its_list() {
    let stub = StubTransport {
        responses: vec![(
            "https://example.com/".to_owned(),
            EgressResponse {
                status: 404,
                status_text: "Not Found".to_owned(),
                headers: vec![],
                body: "none".to_owned(),
            },
        )],
    };
    let mut logs = vec![];
    let outcome = EgressBroker::stub().fetch(
        &stub,
        &Keys,
        "plugin",
        &policy(None),
        EgressMode::DryRun,
        &request("https://example.com/"),
        &mut logs,
    );
    assert_eq!(outcome.response.body, "none");
    assert!(!outcome.ok);
}
