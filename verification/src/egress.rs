//! Brokered HTTPS requests of plugins.
//!
//! A request is denied unless the plugin was granted egress, the URL is an
//! `https` one and its host is exactly one that was allowed. A secret is put
//! into a header after the plugin has handed its request over, so neither the
//! plugin nor the receipt ever holds it: the hash of a request covers the names
//! of injected headers only.
use vstd::prelude::*;
use vstd::utf8::encode_utf8;

use crate::artifact::revision::{blob_hash_of, content_blob_hash};
use crate::assoc;
use crate::credential::{CredentialError, CredentialResolver};
use crate::identity::{canonical_hash_of, canonical_json_hash, ContentHash};
use crate::json::{
    exact, Json, JsonView, lemma_object_of_exact, members_view, object, object_of, optional_text,
    text_array, text_or_null, texts_array,
};
use crate::lists::lemma_push_contains;
use crate::plugin::ScriptLog;
use crate::text::{self, option_view, views};

verus! {

pub const EGRESS_REQUEST_DOMAIN: &'static str = "stcli:egress-request:v1";

/// A header that the broker fills with a credential.
#[derive(Clone, Debug, Eq, PartialEq)]
pub struct EgressSecretInjection {
    pub credential_key: String,
    pub header: String,
    pub value_template: String,
}

/// A host that may be called, and the secret that goes with it.
#[derive(Clone, Debug, Eq, PartialEq)]
pub struct EgressAllowance {
    pub domain: String,
    pub secret: Option<EgressSecretInjection>,
}

/// What a plugin may call.
#[derive(Clone, Debug, Eq, PartialEq)]
pub struct EgressPolicy {
    pub capability_granted: bool,
    pub allowances: Vec<EgressAllowance>,
}

/// Whether a run is for real.
#[derive(Clone, Copy, Debug, Eq, PartialEq, Structural)]
pub enum EgressMode {
    Live,
    DryRun,
}

/// A request. Its headers stand in ascending order of their names.
#[derive(Clone, Debug, Eq, PartialEq)]
pub struct EgressRequest {
    pub url: String,
    pub method: String,
    pub headers: Vec<(String, String)>,
    pub body: Option<String>,
}

/// An answer to a request.
#[derive(Clone, Debug, Eq, PartialEq)]
pub struct EgressResponse {
    pub status: u16,
    pub status_text: String,
    pub headers: Vec<(String, String)>,
    pub body: String,
}

/// The record of an exchange.
#[derive(Clone, Debug, Eq, PartialEq)]
pub struct EgressReceipt {
    pub url: String,
    pub method: String,
    pub request_hash: ContentHash,
    pub status: u16,
    pub response_hash: ContentHash,
    pub body: String,
}

/// Why a request was not answered.
#[derive(Clone, Debug, Eq, PartialEq)]
pub struct EgressTransportError(pub String);

/// What carries requests to hosts.
pub trait EgressTransport {
    /// Sends a request and waits for the answer.
    fn roundtrip(&self, request: &EgressRequest) -> Result<EgressResponse, EgressTransportError>;
}

/// What a plugin learns of its request.
#[derive(Clone, Debug, Eq, PartialEq)]
pub struct EgressOutcome {
    pub response: EgressResponse,
    pub ok: bool,
    pub receipt: Option<EgressReceipt>,
}

/// The broker, and whether its transport is a stub.
#[derive(Clone, Copy, Debug, Eq, PartialEq, Structural)]
pub struct EgressBroker {
    pub stubbed: bool,
}

/// A broker with the policy and mode of a run.
#[derive(Clone, Debug, Eq, PartialEq)]
pub struct EgressInvocation {
    pub broker: EgressBroker,
    pub policy: EgressPolicy,
    pub mode: EgressMode,
}

/// A transport that answers from a table.
#[derive(Clone, Debug, Eq, PartialEq)]
pub struct StubTransport {
    pub responses: Vec<(String, EgressResponse)>,
}

/// A copy of some allowances.
pub fn copy_allowances(allowances: &Vec<EgressAllowance>) -> (copy: Vec<EgressAllowance>)
    ensures
        copy@ == allowances@,
{
    let mut copy: Vec<EgressAllowance> = Vec::new();
    let mut i: usize = 0;
    while i < allowances.len()
        invariant
            i <= allowances@.len(),
            copy@ == allowances@.take(i as int),
        decreases allowances@.len() - i,
    {
        let secret = match &allowances[i].secret {
            Some(s) => Some(
                EgressSecretInjection {
                    credential_key: s.credential_key.clone(),
                    header: s.header.clone(),
                    value_template: s.value_template.clone(),
                },
            ),
            None => None,
        };
        copy.push(EgressAllowance { domain: allowances[i].domain.clone(), secret });
        i = i + 1;
        proof {
            assert(copy@ =~= allowances@.take(i as int));
        }
    }
    proof {
        assert(allowances@.take(allowances@.len() as int) =~= allowances@);
    }
    copy
}

/// The scheme and host of a URL.
pub struct UrlParts {
    pub scheme: String,
    pub host: String,
}

/// The scheme and host that `reqwest::Url` finds in a text, an absent host
/// being empty; nothing where the text is no URL.
pub uninterp spec fn url_parts_of(url: Seq<char>) -> Option<(Seq<char>, Seq<char>)>;

/// `reqwest::Url::parse` with `scheme` and `host_str`: the outcome depends on
/// the text alone.
#[verifier::external_body]
fn parse_url(url: &str) -> (parts: Option<UrlParts>)
    ensures
        match parts {
            Some(p) => url_parts_of(url@) == Some((p.scheme@, p.host@)),
            None => url_parts_of(url@) is None,
        },
{
    let parsed = reqwest::Url::parse(url).ok()?;
    Some(UrlParts {
        scheme: parsed.scheme().to_owned(),
        host: parsed.host_str().unwrap_or_default().to_owned(),
    })
}

/// The first allowance whose domain is `host`, capitals aside, or the number
/// of allowances when there is none.
pub open spec fn allowance_index(allowances: Seq<EgressAllowance>, host: Seq<char>) -> int
    decreases allowances.len(),
{
    if allowances.len() == 0 {
        0
    } else if text::ascii_lower_text(allowances[0].domain@) == text::ascii_lower_text(host) {
        0
    } else {
        1 + allowance_index(allowances.drop_first(), host)
    }
}

proof fn lemma_allowance_index(allowances: Seq<EgressAllowance>, host: Seq<char>)
    ensures
        0 <= allowance_index(allowances, host) <= allowances.len(),
    decreases allowances.len(),
{
    if allowances.len() > 0 {
        lemma_allowance_index(allowances.drop_first(), host);
    }
}

/// Why a request is denied before any secret is resolved, given the scheme and
/// host of its URL.
pub open spec fn denial(
    caller: Seq<char>,
    policy: EgressPolicy,
    url: Seq<char>,
    parts: Option<(Seq<char>, Seq<char>)>,
) -> Option<Seq<char>> {
    if !policy.capability_granted {
        Some(
            "egress denied: plugin '"@ + caller + "' lacks the brokered-egress capability"@,
        )
    } else {
        match parts {
            None => Some("egress denied: '"@ + url + "' is not a valid URL"@),
            Some((scheme, host)) => if scheme != "https"@ {
                Some("egress denied: only https URLs are brokered ("@ + url + ")"@)
            } else if allowance_index(policy.allowances@, host) >= policy.allowances@.len() {
                Some(
                    "egress denied: '"@ + host + "' is not in the egress allow-list for '"@
                        + caller + "'"@,
                )
            } else {
                None
            },
        }
    }
}

/// Decides whether a request may go out, given the scheme and host of its URL:
/// the allowance that lets it, or why it is denied.
pub fn authorize(
    caller: &str,
    policy: &EgressPolicy,
    url: &str,
    parts: &Option<UrlParts>,
) -> (r: Result<usize, String>)
    ensures
        ({
            let p = parts_view_of(*parts);
            match r {
                Ok(at) => denial(caller@, *policy, url@, p) is None && p is Some && at
                    == allowance_index(policy.allowances@, (p->0).1) && at < policy.allowances@.len(),
                Err(message) => denial(caller@, *policy, url@, p) == Some(message@),
            }
        }),
{
    if !policy.capability_granted {
        let mut message = "egress denied: plugin '".to_owned();
        message.push_str(caller);
        message.push_str("' lacks the brokered-egress capability");
        return Err(message);
    }
    match parts {
        None => {
            let mut message = "egress denied: '".to_owned();
            message.push_str(url);
            message.push_str("' is not a valid URL");
            Err(message)
        },
        Some(found) => {
            if !text::same(found.scheme.as_str(), "https") {
                let mut message = "egress denied: only https URLs are brokered (".to_owned();
                message.push_str(url);
                message.push_str(")");
                return Err(message);
            }
            let mut i: usize = 0;
            let ghost all = policy.allowances@;
            proof {
                assert(all.skip(0) =~= all);
            }
            while i < policy.allowances.len()
                invariant
                    i <= all.len(),
                    all == policy.allowances@,
                    policy.capability_granted,
                    found.scheme@ == "https"@,
                    *parts == Some(*found),
                    allowance_index(all, found.host@) == i + allowance_index(
                        all.skip(i as int),
                        found.host@,
                    ),
                decreases all.len() - i,
            {
                proof {
                    assert(all.skip(i as int)[0] == all[i as int]);
                    assert(all.skip(i as int).drop_first() =~= all.skip(i + 1));
                }
                if text::same_ignoring_case(
                    policy.allowances[i].domain.as_str(),
                    found.host.as_str(),
                ) {
                    return Ok(i);
                }
                i = i + 1;
            }
            let mut message = "egress denied: '".to_owned();
            message.push_str(found.host.as_str());
            message.push_str("' is not in the egress allow-list for '");
            message.push_str(caller);
            message.push_str("'");
            Err(message)
        },
    }
}

/// The scheme and host as texts.
pub open spec fn parts_view_of(parts: Option<UrlParts>) -> Option<(Seq<char>, Seq<char>)> {
    match parts {
        Some(p) => Some((p.scheme@, p.host@)),
        None => None,
    }
}

/// The message for a credential that cannot be had.
pub open spec fn credential_denial(key: Seq<char>, host: Seq<char>) -> Seq<char> {
    "egress denied: credential '"@ + key + "' is unavailable for '"@ + host + "'"@
}

/// Whether a header is named otherwise than `name`, capitals aside.
pub open spec fn other_header(name: Seq<char>) -> spec_fn((String, String)) -> bool {
    |header: (String, String)| text::ascii_lower_text(header.0@) != text::ascii_lower_text(name)
}

/// The headers that go out: those of the request, with an injected one in the
/// place of every header of its name.
pub open spec fn injected(
    headers: Seq<(String, String)>,
    name: String,
    value: String,
) -> Seq<(String, String)> {
    assoc::with_entry(headers.filter(other_header(name@)), name, value)
}

/// The JSON value that a request is hashed by.
pub open spec fn request_json(
    method: Seq<char>,
    url: Seq<char>,
    body: Option<Seq<char>>,
    injected_headers: Seq<Seq<char>>,
) -> JsonView {
    JsonView::Object(
        object_of(
            seq![
                ("method"@, JsonView::Text(method)),
                ("url"@, JsonView::Text(url)),
                ("body"@, text_or_null(body)),
                ("injected_headers"@, texts_array(injected_headers)),
            ],
        ),
    )
}

/// The hash of a request: its method, URL, body and the names of the headers
/// that were injected.
pub fn request_hash(
    method: &str,
    url: &str,
    body: &Option<String>,
    injected_headers: &Vec<String>,
) -> (hash: ContentHash)
    ensures
        canonical_hash_of(
            EGRESS_REQUEST_DOMAIN@,
            request_json(method@, url@, option_view(*body), views(injected_headers@)),
        ) == Some(hash@),
{
    let pairs: Vec<(String, Json)> = vec![
        ("method".to_owned(), Json::Text(method.to_owned())),
        ("url".to_owned(), Json::Text(url.to_owned())),
        ("body".to_owned(), optional_text(body)),
        ("injected_headers".to_owned(), text_array(injected_headers)),
    ];
    let ghost named = members_view(pairs@);
    proof {
        assert(named =~= seq![
            ("method"@, JsonView::Text(method@)),
            ("url"@, JsonView::Text(url@)),
            ("body"@, text_or_null(option_view(*body))),
            ("injected_headers"@, texts_array(views(injected_headers@))),
        ]);
        assert(exact(named[3].1)) by {
            let items = named[3].1->Array_0;
            assert forall|i: int| 0 <= i < items.len() implies exact(#[trigger] items[i]) by {}
        }
        assert(exact(named[0].1) && exact(named[1].1) && exact(named[2].1));
        lemma_object_of_exact(named);
    }
    let value = object(pairs);
    match canonical_json_hash(EGRESS_REQUEST_DOMAIN, &value) {
        Ok(hash) => hash,
        Err(_) => {
            proof {
                assert(false);
            }
            ContentHash::new([0u8; 32])
        },
    }
}

/// A request that is ready to go out, with the hash it is recorded under.
pub struct PreparedRequest {
    pub request: EgressRequest,
    pub request_hash: ContentHash,
}

/// What goes out for a request: the method in capitals, and the secret, where
/// there is one, in its header.
pub open spec fn prepared_for(
    request: EgressRequest,
    injection: Option<EgressSecretInjection>,
    secret: Seq<char>,
    prepared: PreparedRequest,
) -> bool {
    &&& prepared.request.url@ == request.url@
    &&& prepared.request.method@ == text::uppercase_of(request.method@)
    &&& option_view(prepared.request.body) == option_view(request.body)
    &&& match injection {
        None => prepared.request.headers@ == request.headers@,
        Some(i) => exists|value: String|
            #![trigger injected(request.headers@, i.header, value)]
            value@ == text::replaced(i.value_template@, "{secret}"@, secret)
                && prepared.request.headers@ == injected(request.headers@, i.header, value),
    }
    &&& canonical_hash_of(
        EGRESS_REQUEST_DOMAIN@,
        request_json(
            text::uppercase_of(request.method@),
            request.url@,
            option_view(request.body),
            match injection {
                None => Seq::empty(),
                Some(i) => seq![i.header@],
            },
        ),
    ) == Some(prepared.request_hash@)
}

fn copy_headers(headers: &Vec<(String, String)>) -> (copy: Vec<(String, String)>)
    ensures
        copy@ == headers@,
{
    let mut copy: Vec<(String, String)> = Vec::new();
    let mut i: usize = 0;
    while i < headers.len()
        invariant
            i <= headers@.len(),
            copy@ == headers@.take(i as int),
        decreases headers@.len() - i,
    {
        copy.push((headers[i].0.clone(), headers[i].1.clone()));
        i = i + 1;
        proof {
            assert(copy@ =~= headers@.take(i as int));
        }
    }
    proof {
        assert(headers@.take(headers@.len() as int) =~= headers@);
    }
    copy
}

fn other_headers(headers: &Vec<(String, String)>, name: &str) -> (kept: Vec<(String, String)>)
    ensures
        kept@ == headers@.filter(other_header(name@)),
{
    let mut kept: Vec<(String, String)> = Vec::new();
    let mut i: usize = 0;
    while i < headers.len()
        invariant
            i <= headers@.len(),
            kept@ == headers@.take(i as int).filter(other_header(name@)),
        decreases headers@.len() - i,
    {
        proof {
            assert(headers@.take(i + 1).drop_last() =~= headers@.take(i as int));
            reveal(Seq::filter);
        }
        if !text::same_ignoring_case(headers[i].0.as_str(), name) {
            kept.push((headers[i].0.clone(), headers[i].1.clone()));
        }
        i = i + 1;
    }
    proof {
        assert(headers@.take(headers@.len() as int) =~= headers@);
    }
    kept
}

/// Makes a request ready to go out with the secret that its allowance calls
/// for.
pub fn prepare(
    request: &EgressRequest,
    injection: &Option<EgressSecretInjection>,
    secret: &str,
) -> (prepared: PreparedRequest)
    ensures
        prepared_for(*request, *injection, secret@, prepared),
{
    let method = text::uppercase(request.method.as_str());
    let mut injected_headers: Vec<String> = Vec::new();
    let headers = match injection {
        None => copy_headers(&request.headers),
        Some(i) => {
            let mut headers = other_headers(&request.headers, i.header.as_str());
            proof {
                reveal_strlit("{secret}");
            }
            let value = text::replace_all(i.value_template.as_str(), "{secret}", secret);
            let ghost written = value;
            assoc::set(&mut headers, i.header.clone(), value);
            injected_headers.push(i.header.clone());
            proof {
                assert(headers@ == injected(request.headers@, i.header, written));
            }
            headers
        },
    };
    proof {
        assert(views(injected_headers@) =~= match *injection {
            None => Seq::empty(),
            Some(i) => seq![i.header@],
        });
    }
    let hash = request_hash(
        method.as_str(),
        request.url.as_str(),
        &request.body,
        &injected_headers,
    );
    PreparedRequest {
        request: EgressRequest {
            url: request.url.clone(),
            method,
            headers,
            body: text::copy_option(&request.body),
        },
        request_hash: hash,
    }
}

/// The answer to a request that was denied.
pub open spec fn is_denied(outcome: EgressOutcome) -> bool {
    &&& outcome.response.status == 0
    &&& outcome.response.status_text@ == "egress denied"@
    &&& outcome.response.headers@.len() == 0
    &&& outcome.response.body@.len() == 0
    &&& !outcome.ok
    &&& outcome.receipt is None
}

/// The logs with one warning more.
pub open spec fn warned(before: Seq<ScriptLog>, after: Seq<ScriptLog>, message: Seq<char>) -> bool {
    &&& after.len() == before.len() + 1
    &&& after.take(before.len() as int) == before
    &&& after.last().level@ == "warn"@
    &&& after.last().message@ == message
}

/// Denies a request and logs why.
pub fn denied(logs: &mut Vec<ScriptLog>, message: String) -> (outcome: EgressOutcome)
    ensures
        is_denied(outcome),
        warned(old(logs)@, final(logs)@, message@),
{
    logs.push(ScriptLog { level: "warn".to_owned(), message });
    proof {
        assert(logs@.take(old(logs)@.len() as int) =~= old(logs)@);
        reveal_strlit("");
    }
    EgressOutcome {
        response: EgressResponse {
            status: 0,
            status_text: "egress denied".to_owned(),
            headers: Vec::new(),
            body: String::new(),
        },
        ok: false,
        receipt: None,
    }
}

/// The empty answer that stands in where nothing is sent.
pub open spec fn is_canned(response: EgressResponse) -> bool {
    &&& response.status == 200
    &&& response.status_text@ == "OK"@
    &&& response.headers@.len() == 0
    &&& response.body@.len() == 0
}

fn canned() -> (response: EgressResponse)
    ensures
        is_canned(response),
{
    EgressResponse {
        status: 200,
        status_text: "OK".to_owned(),
        headers: Vec::new(),
        body: String::new(),
    }
}

/// The message of a transport that failed.
pub open spec fn transport_message(error: EgressTransportError) -> Seq<char> {
    "egress transport failed: "@ + error.0@
}

/// What a plugin learns once its request has been answered or has failed.
pub open spec fn concluded(
    prepared: PreparedRequest,
    answer: Result<EgressResponse, EgressTransportError>,
    outcome: EgressOutcome,
) -> bool {
    &&& outcome.receipt is Some
    &&& outcome.receipt->0.url@ == prepared.request.url@
    &&& outcome.receipt->0.method@ == prepared.request.method@
    &&& outcome.receipt->0.request_hash@ == prepared.request_hash@
    &&& outcome.receipt->0.status == outcome.response.status
    &&& outcome.receipt->0.body@ == outcome.response.body@
    &&& outcome.receipt->0.response_hash@ == blob_hash_of(encode_utf8(outcome.response.body@))
    &&& match answer {
        Ok(response) => outcome.response == response && outcome.ok == (200 <= response.status
            < 300),
        Err(e) => {
            &&& !outcome.ok
            &&& outcome.response.status == 0
            &&& outcome.response.status_text@ == "transport error"@
            &&& outcome.response.headers@.len() == 0
            &&& outcome.response.body@ == transport_message(e)
        },
    }
}

/// Makes the outcome and receipt of an exchange.
pub fn conclude(
    prepared: PreparedRequest,
    answer: Result<EgressResponse, EgressTransportError>,
) -> (outcome: EgressOutcome)
    ensures
        concluded(prepared, answer, outcome),
{
    let (response, ok) = match answer {
        Ok(response) => {
            let ok = 200 <= response.status && response.status < 300;
            (response, ok)
        },
        Err(error) => {
            let mut message = "egress transport failed: ".to_owned();
            message.push_str(error.0.as_str());
            (
                EgressResponse {
                    status: 0,
                    status_text: "transport error".to_owned(),
                    headers: Vec::new(),
                    body: message,
                },
                false,
            )
        },
    };
    let response_hash = content_blob_hash(response.body.as_str().as_bytes());
    let receipt = EgressReceipt {
        url: prepared.request.url,
        method: prepared.request.method,
        request_hash: prepared.request_hash,
        status: response.status,
        response_hash,
        body: response.body.clone(),
    };
    EgressOutcome { response, ok, receipt: Some(receipt) }
}

impl EgressTransport for StubTransport {
    fn roundtrip(&self, request: &EgressRequest) -> (r: Result<EgressResponse, EgressTransportError>)
        ensures
            match r {
                Ok(response) => match assoc::lookup(self.responses@, request.url@) {
                    Some(known) => same_response(response, known),
                    None => is_canned(response),
                },
                Err(_) => false,
            },
    {
        match assoc::find(&self.responses, request.url.as_str()) {
            Some(known) => Ok(
                EgressResponse {
                    status: known.status,
                    status_text: known.status_text.clone(),
                    headers: copy_headers(&known.headers),
                    body: known.body.clone(),
                },
            ),
            None => Ok(canned()),
        }
    }
}

/// Two answers say the same.
pub open spec fn same_response(a: EgressResponse, b: EgressResponse) -> bool {
    &&& a.status == b.status
    &&& a.status_text@ == b.status_text@
    &&& a.headers@ == b.headers@
    &&& a.body@ == b.body@
}

/// The credentials answer that to a key.
pub open spec fn is_credential<C: CredentialResolver>(
    credentials: C,
    key: Seq<char>,
    reply: Result<String, CredentialError>,
) -> bool {
    exists|name: &str|
        name@ == key && #[trigger] call_ensures(C::get, (&credentials, name), reply)
}

/// The secret is the one that an injection calls for, as the credentials give
/// it; without an injection it is empty.
pub open spec fn is_secret<C: CredentialResolver>(
    credentials: C,
    injection: Option<EgressSecretInjection>,
    secret: Seq<char>,
) -> bool {
    match injection {
        None => secret.len() == 0,
        Some(i) => exists|value: String|
            #[trigger] is_credential(credentials, i.credential_key@, Ok(value)) && value@ == secret,
    }
}

/// The answer is the canned one where nothing is to be sent, and else what the
/// transport answers to the request as it goes out.
pub open spec fn is_answer<T: EgressTransport>(
    transport: T,
    broker: EgressBroker,
    mode: EgressMode,
    request: EgressRequest,
    answer: Result<EgressResponse, EgressTransportError>,
) -> bool {
    if mode == EgressMode::DryRun && !broker.stubbed {
        answer is Ok && is_canned(answer->Ok_0)
    } else {
        call_ensures(T::roundtrip, (&transport, &request), answer)
    }
}

/// What comes of a request, given what the credentials and the transport answer
/// where they are asked.
pub open spec fn fetch_outcome<T: EgressTransport, C: CredentialResolver>(
    broker: EgressBroker,
    transport: T,
    credentials: C,
    caller: Seq<char>,
    policy: EgressPolicy,
    mode: EgressMode,
    request: EgressRequest,
    before: Seq<ScriptLog>,
    after: Seq<ScriptLog>,
    outcome: EgressOutcome,
) -> bool {
    let parts = url_parts_of(request.url@);
    match denial(caller, policy, request.url@, parts) {
        Some(message) => is_denied(outcome) && warned(before, after, message),
        None => {
            let host = (parts->0).1;
            let injection = policy.allowances@[allowance_index(policy.allowances@, host)].secret;
            ||| injection is Some && is_denied(outcome) && warned(
                before,
                after,
                credential_denial(injection->0.credential_key@, host),
            ) && exists|e: CredentialError| #[trigger]
                is_credential(credentials, injection->0.credential_key@, Err(e))
            ||| after == before && exists|
                secret: Seq<char>,
                prepared: PreparedRequest,
                answer: Result<EgressResponse, EgressTransportError>,
            |
                {
                    &&& #[trigger] prepared_for(request, injection, secret, prepared)
                    &&& #[trigger] concluded(prepared, answer, outcome)
                    &&& is_secret(credentials, injection, secret)
                    &&& is_answer(transport, broker, mode, prepared.request, answer)
                }
        },
    }
}

impl EgressBroker {
    /// A broker that sends requests out.
    pub fn live() -> (broker: Self)
        ensures
            !broker.stubbed,
    {
        EgressBroker { stubbed: false }
    }

    /// A broker whose transport is a stub.
    pub fn stub() -> (broker: Self)
        ensures
            broker.stubbed,
    {
        EgressBroker { stubbed: true }
    }

    /// Sends a request of a plugin, if its policy lets it. A dry run with a
    /// real transport sends nothing.
    pub fn fetch<T: EgressTransport, C: CredentialResolver>(
        &self,
        transport: &T,
        credentials: &C,
        caller: &str,
        policy: &EgressPolicy,
        mode: EgressMode,
        request: &EgressRequest,
        logs: &mut Vec<ScriptLog>,
    ) -> (outcome: EgressOutcome)
        ensures
            fetch_outcome(
                *self,
                *transport,
                *credentials,
                caller@,
                *policy,
                mode,
                *request,
                old(logs)@,
                final(logs)@,
                outcome,
            ),
    {
        let parts = if policy.capability_granted {
            parse_url(request.url.as_str())
        } else {
            None
        };
        let at: usize = match authorize(caller, policy, request.url.as_str(), &parts) {
            Ok(at) => at,
            Err(message) => {
                return denied(logs, message);
            },
        };
        let allowance = &policy.allowances[at];
        let secret = match &allowance.secret {
            None => String::new(),
            Some(injection) => match credentials.get(injection.credential_key.as_str()) {
                Ok(value) => {
                    proof {
                        assert(is_credential(
                            *credentials,
                            injection.credential_key@,
                            Ok(value),
                        ));
                    }
                    value
                },
                Err(e) => {
                    proof {
                        assert(is_credential(*credentials, injection.credential_key@, Err(e)));
                    }
                    let mut message = "egress denied: credential '".to_owned();
                    message.push_str(injection.credential_key.as_str());
                    message.push_str("' is unavailable for '");
                    match &parts {
                        Some(p) => message.push_str(p.host.as_str()),
                        None => {},
                    }
                    message.push_str("'");
                    return denied(logs, message);
                },
            },
        };
        let prepared = prepare(request, &allowance.secret, secret.as_str());
        let answer = if mode == EgressMode::DryRun && !self.stubbed {
            Ok(canned())
        } else {
            transport.roundtrip(&prepared.request)
        };
        conclude(prepared, answer)
    }
}

proof fn lemma_allowance_is_named(allowances: Seq<EgressAllowance>, host: Seq<char>)
    requires
        allowance_index(allowances, host) < allowances.len(),
    ensures
        0 <= allowance_index(allowances, host),
        text::ascii_lower_text(allowances[allowance_index(allowances, host)].domain@)
            == text::ascii_lower_text(host),
    decreases allowances.len(),
{
    lemma_allowance_index(allowances, host);
    if text::ascii_lower_text(allowances[0].domain@) != text::ascii_lower_text(host) {
        lemma_allowance_is_named(allowances.drop_first(), host);
    }
}

/// A request that is not denied comes from a caller with the capability, goes
/// over https, and goes to a host that the allow-list names.
pub proof fn law_only_allowed_requests_go_out(
    caller: Seq<char>,
    policy: EgressPolicy,
    url: Seq<char>,
    parts: Option<(Seq<char>, Seq<char>)>,
)
    requires
        denial(caller, policy, url, parts) is None,
    ensures
        policy.capability_granted,
        parts is Some,
        (parts->0).0 == "https"@,
        exists|i: int|
            0 <= i < policy.allowances@.len() && text::ascii_lower_text(
                (#[trigger] policy.allowances@[i]).domain@,
            ) == text::ascii_lower_text((parts->0).1),
{
    lemma_allowance_is_named(policy.allowances@, (parts->0).1);
}

/// A request is recorded under the same hash whatever the secret is that goes
/// out with it.
pub proof fn law_records_are_free_of_secrets(
    request: EgressRequest,
    injection: Option<EgressSecretInjection>,
    first: Seq<char>,
    second: Seq<char>,
    with_first: PreparedRequest,
    with_second: PreparedRequest,
)
    requires
        prepared_for(request, injection, first, with_first),
        prepared_for(request, injection, second, with_second),
    ensures
        with_first.request_hash@ == with_second.request_hash@,
{
}

/// A request of a caller with the capability that goes over https to a host that the
/// allow-list names, capitals aside, is not denied.
pub proof fn law_allowed_requests_are_not_denied(
    caller: Seq<char>,
    policy: EgressPolicy,
    url: Seq<char>,
    host: Seq<char>,
    i: int,
)
    requires
        policy.capability_granted,
        0 <= i < policy.allowances@.len(),
        text::ascii_lower_text(policy.allowances@[i].domain@) == text::ascii_lower_text(host),
    ensures
        denial(caller, policy, url, Some(("https"@, host))) is None,
{
    lemma_allowance_is_first(policy.allowances@, host, i);
}

/// The allowance that counts for a host is the first that names it.
pub proof fn law_the_first_allowance_counts(
    allowances: Seq<EgressAllowance>,
    host: Seq<char>,
    i: int,
)
    requires
        0 <= i < allowances.len(),
        text::ascii_lower_text(allowances[i].domain@) == text::ascii_lower_text(host),
        forall|k: int|
            0 <= k < i ==> text::ascii_lower_text((#[trigger] allowances[k]).domain@)
                != text::ascii_lower_text(host),
    ensures
        allowance_index(allowances, host) == i,
{
    lemma_allowance_is_first(allowances, host, i);
    lemma_allowance_is_named(allowances, host);
}

proof fn lemma_allowance_is_first(allowances: Seq<EgressAllowance>, host: Seq<char>, i: int)
    requires
        0 <= i < allowances.len(),
        text::ascii_lower_text(allowances[i].domain@) == text::ascii_lower_text(host),
    ensures
        0 <= allowance_index(allowances, host) <= i,
    decreases allowances.len(),
{
    if i > 0 {
        lemma_allowance_is_first(allowances.drop_first(), host, i - 1);
    }
}

proof fn lemma_other_headers(
    headers: Seq<(String, String)>,
    name: Seq<char>,
    header: (String, String),
)
    ensures
        headers.filter(other_header(name)).contains(header) <==> headers.contains(header)
            && text::ascii_lower_text(header.0@) != text::ascii_lower_text(name),
    decreases headers.len(),
{
    reveal(Seq::filter);
    if headers.len() > 0 {
        let rest = headers.drop_last();
        lemma_other_headers(rest, name, header);
        assert(headers =~= rest.push(headers.last()));
        lemma_push_contains(rest, headers.last(), header);
        lemma_push_contains(rest.filter(other_header(name)), headers.last(), header);
    }
}

/// A secret goes out in its header alone: every header of that name, capitals aside,
/// gives way to it, and all others go out as they are.
pub proof fn law_secrets_take_the_place_of_their_header(
    headers: Seq<(String, String)>,
    name: String,
    value: String,
    header: (String, String),
)
    ensures
        injected(headers, name, value).contains(header) <==> header == (name, value) || (
        headers.contains(header) && text::ascii_lower_text(header.0@) != text::ascii_lower_text(
            name@,
        )),
{
    let others = headers.filter(other_header(name@));
    let after = injected(headers, name, value);
    assoc::lemma_index_of(others, name@);
    assoc::lemma_rank(others, name@);
    if assoc::has(others, name@) {
        let i = choose|i: int| 0 <= i < others.len() && (#[trigger] others[i]).0@ == name@;
        lemma_other_headers(headers, name@, others[i]);
        assert(others.contains(others[i]));
    }
    let at = assoc::rank(others, name@);
    assert(after == others.insert(at, (name, value)));
    lemma_other_headers(headers, name@, header);
    if others.contains(header) {
        let k = choose|k: int| 0 <= k < others.len() && others[k] == header;
        assert(after[if k < at {
            k
        } else {
            k + 1
        }] == header);
    }
    if after.contains(header) {
        let k = choose|k: int| 0 <= k < after.len() && after[k] == header;
        if k < at {
            assert(others[k] == header);
        } else if k > at {
            assert(others[k - 1] == header);
        }
    }
    assert(after[at] == (name, value));
}

} // verus!
