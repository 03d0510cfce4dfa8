//! Secondary inference of plugins.
use vstd::prelude::*;
use vstd::utf8::encode_utf8;

use crate::artifact::revision::{blob_hash_of, content_blob_hash};
use crate::assoc;
use crate::config::{available_text, Config, ConfigError, format_available, names_of};
use crate::identity::{
    canonical_hash_of, canonical_json_hash, CanonicalError, ContentHash, EntityId,
};
use crate::json::{
    equal_json, Json, JsonView, members_view, object, object_of, remove_member, without_member,
};
use crate::prompt::segment::optional_hash;
use crate::provider::ProviderSettings;
use crate::session::AttemptStatus;
use crate::text::{self, copy_option, option_view, views};

verus! {

pub const INFERENCE_REQUEST_DOMAIN: &'static str = "stcli:secondary-inference-request:v1";

/// How an inference ended.
#[derive(Clone, Copy, Debug, Eq, PartialEq, Structural)]
pub enum InferenceStatus {
    Completed,
    Failed,
    Cancelled,
}

/// The record of an inference.
#[derive(Clone, Debug, Eq, PartialEq)]
pub struct InferenceReceipt {
    pub attempt_id: Option<EntityId>,
    pub parent_attempt_id: Option<EntityId>,
    pub caller: String,
    pub system_prompt: Option<String>,
    pub profile_name: String,
    pub prompt: String,
    pub effective_settings: Json,
    pub request_hash: ContentHash,
    pub status: InferenceStatus,
    pub response_hash: ContentHash,
    pub text: String,
    pub usage: Option<Json>,
    pub error: Option<String>,
}

/// Why an inference is refused or its receipt is not accepted.
#[derive(Clone, Debug, Eq, PartialEq)]
pub enum InferenceError {
    Denied(String),
    InvalidGenerationSettings,
    Profile(String),
    Provider(String),
    Canonicalize,
    MissingInvocationMetadata,
    Store(String),
    Attempt(String),
    Transport(String),
    InvalidReceipt,
}

/// The broker of secondary inference: the profiles it may use, where it records
/// attempts and whether its transport is a stub.
#[derive(Clone, Debug, Eq, PartialEq)]
pub struct InferenceBroker {
    pub stubbed: bool,
    pub database: Option<String>,
}

/// The JSON value that an inference request is hashed by. A system prompt is
/// part of it only where there is one.
pub open spec fn request_json(
    profile_name: Seq<char>,
    system_prompt: Option<Seq<char>>,
    prompt: Seq<char>,
    effective_settings: JsonView,
) -> JsonView {
    let base = seq![
        ("profile_name"@, JsonView::Text(profile_name)),
        ("prompt"@, JsonView::Text(prompt)),
        ("effective_settings"@, effective_settings),
    ];
    JsonView::Object(
        object_of(
            match system_prompt {
                Some(s) => base.push(("system_prompt"@, JsonView::Text(s))),
                None => base,
            },
        ),
    )
}

/// The hash of an inference request.
pub fn inference_request_hash(
    profile_name: &str,
    system_prompt: &Option<String>,
    prompt: &str,
    effective_settings: &Json,
) -> (hash: Result<ContentHash, CanonicalError>)
    ensures
        ({
            let value = request_json(
                profile_name@,
                option_view(*system_prompt),
                prompt@,
                effective_settings@,
            );
            match hash {
                Ok(h) => canonical_hash_of(INFERENCE_REQUEST_DOMAIN@, value) == Some(h@),
                Err(_) => canonical_hash_of(INFERENCE_REQUEST_DOMAIN@, value) is None,
            }
        }),
{
    let mut pairs: Vec<(String, Json)> = vec![
        ("profile_name".to_owned(), Json::Text(profile_name.to_owned())),
        ("prompt".to_owned(), Json::Text(prompt.to_owned())),
        ("effective_settings".to_owned(), effective_settings.copy()),
    ];
    let ghost base = seq![
        ("profile_name"@, JsonView::Text(profile_name@)),
        ("prompt"@, JsonView::Text(prompt@)),
        ("effective_settings"@, effective_settings@),
    ];
    proof {
        assert(members_view(pairs@) =~= base);
    }
    match system_prompt {
        Some(s) => {
            let ghost before = pairs@;
            pairs.push(("system_prompt".to_owned(), Json::Text(s.clone())));
            proof {
                assert forall|i: int| 0 <= i < before.len() implies members_view(pairs@)[i]
                    == base[i] by {
                    assert(members_view(before)[i] == base[i]);
                }
                assert(members_view(pairs@) =~= base.push(
                    ("system_prompt"@, JsonView::Text(s@)),
                ));
            }
        },
        None => {},
    }
    let value = object(pairs);
    canonical_json_hash(INFERENCE_REQUEST_DOMAIN, &value)
}

/// The settings that a provider request carries: all of it but the messages
/// and the prompt.
pub open spec fn settings_of(request: JsonView) -> JsonView {
    let members = match request {
        JsonView::Object(m) => m,
        _ => Seq::empty(),
    };
    JsonView::Object(without_member(without_member(members, "messages"@), "prompt"@))
}

/// The settings that a provider request carries.
pub fn effective_settings(request: &Json) -> (settings: Json)
    ensures
        settings@ == settings_of(request@),
{
    let mut members = match request {
        Json::Object(m) => {
            proof {
                crate::json::lemma_object_view(*m);
            }
            crate::json::copy_members(m)
        },
        _ => Vec::new(),
    };
    proof {
        assert(members_view(members@) =~= match request@ {
            JsonView::Object(m) => m,
            _ => Seq::empty(),
        });
    }
    remove_member(&mut members, "messages");
    remove_member(&mut members, "prompt");
    proof {
        crate::json::lemma_object_view(members);
    }
    Json::Object(members)
}

/// The hash of the request that a receipt tells of, where it has one.
pub open spec fn told_request_hash(receipt: InferenceReceipt) -> Option<Seq<u8>> {
    canonical_hash_of(
        INFERENCE_REQUEST_DOMAIN@,
        request_json(
            receipt.profile_name@,
            option_view(receipt.system_prompt),
            receipt.prompt@,
            receipt.effective_settings@,
        ),
    )
}

/// A receipt that records a completed inference: its hashes are those of its
/// request and of its text.
pub open spec fn receipt_is_valid(receipt: InferenceReceipt) -> bool {
    &&& receipt.status == InferenceStatus::Completed
    &&& receipt.error is None
    &&& told_request_hash(receipt) == Some(receipt.request_hash@)
    &&& receipt.response_hash@ == blob_hash_of(encode_utf8(receipt.text@))
}

/// Checks that a receipt records a completed inference.
pub fn validate_inference_receipt(receipt: &InferenceReceipt) -> (r: Result<(), InferenceError>)
    ensures
        match r {
            Ok(_) => receipt_is_valid(*receipt),
            Err(InferenceError::Canonicalize) => told_request_hash(*receipt) is None,
            Err(InferenceError::InvalidReceipt) => !receipt_is_valid(*receipt)
                && told_request_hash(*receipt) is Some,
            Err(_) => false,
        },
{
    let request_hash = match inference_request_hash(
        receipt.profile_name.as_str(),
        &receipt.system_prompt,
        receipt.prompt.as_str(),
        &receipt.effective_settings,
    ) {
        Ok(hash) => hash,
        Err(_) => {
            return Err(InferenceError::Canonicalize);
        },
    };
    if receipt.status != InferenceStatus::Completed || receipt.error.is_some() {
        return Err(InferenceError::InvalidReceipt);
    }
    let response_hash = content_blob_hash(receipt.text.as_str().as_bytes());
    if !receipt.request_hash.same(&request_hash) || !receipt.response_hash.same(&response_hash) {
        return Err(InferenceError::InvalidReceipt);
    }
    Ok(())
}

/// A request of a plugin for an inference.
#[derive(Clone, Debug, Eq, PartialEq)]
pub struct InferenceRequest {
    pub system_prompt: Option<String>,
    pub prompt: String,
    pub profile_name: String,
    pub generation_settings: Json,
}

/// Whether a plugin may infer, and in earnest.
#[derive(Clone, Copy, Debug, Eq, PartialEq, Structural)]
pub struct InferencePolicy {
    pub capability_granted: bool,
    pub mode: InferenceMode,
}

/// Whether an inference is made in earnest.
#[derive(Clone, Copy, Debug, Eq, PartialEq, Structural)]
pub enum InferenceMode {
    Live,
    DryRun,
}

/// What an inference came to.
#[derive(Clone, Debug, Eq, PartialEq)]
pub struct InferenceResponse {
    pub text: String,
    pub receipt: InferenceReceipt,
}

/// Why a provider could not be asked.
#[derive(Clone, Debug, Eq, PartialEq)]
pub struct InferenceTransportError(pub String);

/// Something that a provider tells while it answers.
#[derive(Clone, Debug, Eq, PartialEq)]
pub enum ProviderEvent {
    Usage { usage: Json },
    Other,
}

/// What a provider answered.
#[derive(Clone, Debug, Eq, PartialEq)]
pub struct ProviderResult {
    pub text: String,
    pub events: Vec<ProviderEvent>,
}

/// What asks providers.
pub trait InferenceTransport {
    /// Asks a provider.
    fn generate(&self, settings: &ProviderSettings, request: &Json) -> Result<
        ProviderResult,
        InferenceTransportError,
    >;
}

/// A transport that answers from a list of texts by provider.
#[derive(Clone, Debug, Eq, PartialEq)]
pub struct StubInferenceTransport {
    pub responses: Vec<(String, String)>,
}

impl StubInferenceTransport {
    /// The text for a provider.
    pub open spec fn answer(&self, settings: ProviderSettings) -> Seq<char> {
        match assoc::lookup(self.responses@, settings.id@) {
            Some(text) => text@,
            None => Seq::empty(),
        }
    }
}

impl InferenceTransport for StubInferenceTransport {
    fn generate(&self, settings: &ProviderSettings, request: &Json) -> (r: Result<
        ProviderResult,
        InferenceTransportError,
    >)
        ensures
            r matches Ok(result) && result.text@ == self.answer(*settings) && result.events@.len()
                == 0,
    {
        let text = match assoc::find(&self.responses, settings.id.as_str()) {
            Some(text) => text.clone(),
            None => String::new(),
        };
        proof {
            if assoc::lookup(self.responses@, settings.id@) is None {
                assert(text@ =~= Seq::<char>::empty());
            }
        }
        Ok(ProviderResult { text, events: Vec::new() })
    }
}

/// The circumstances of an inference.
#[derive(Clone, Debug)]
pub struct InferenceInvocation {
    pub policy: InferencePolicy,
    pub default_profile: String,
    pub session_id: Option<EntityId>,
    pub branch_id: Option<EntityId>,
    pub parent_attempt_id: Option<EntityId>,
    pub config_hash: Option<ContentHash>,
    pub caller: String,
}

/// Where an inference that is made in earnest is recorded.
#[derive(Clone, Debug)]
pub struct InferenceRecord {
    pub database: String,
    pub session_id: EntityId,
    pub branch_id: EntityId,
    pub parent_attempt_id: EntityId,
    pub config_hash: ContentHash,
}

/// An inference that is ready to be made.
#[derive(Clone, Debug)]
pub struct PreparedInference {
    pub profile_name: String,
    pub effective_settings: Json,
    pub request_hash: ContentHash,
    /// Where the inference is recorded, where it is made in earnest.
    pub record: Option<InferenceRecord>,
    /// Whether a provider is asked at all.
    pub asks: bool,
}

/// What is said to a plugin that may not infer.
pub open spec fn denial_text(caller: Seq<char>) -> Seq<char> {
    "secondary inference denied: plugin '"@ + caller
        + "' lacks the secondary-inference capability"@
}

/// What is said of a profile that is not there.
pub open spec fn missing_profile_text(name: Seq<char>, available: Seq<Seq<char>>) -> Seq<char> {
    "provider profile '"@ + name + "' was not found; available profiles: "@ + available_text(
        available,
    )
}

/// The profile that a request names, or else the one of the circumstances.
pub open spec fn profile_of(request: InferenceRequest, invocation: InferenceInvocation) -> Seq<char> {
    if request.profile_name@.len() == 0 {
        invocation.default_profile@
    } else {
        request.profile_name@
    }
}

/// What choosing a provider comes to.
pub open spec fn is_choice(
    r: Result<ProviderSettings, InferenceError>,
    config: Config,
    invocation: InferenceInvocation,
    request: InferenceRequest,
) -> bool {
    let name = profile_of(request, invocation);
    if !invocation.policy.capability_granted {
        r matches Err(InferenceError::Denied(message)) && message@ == denial_text(
            invocation.caller@,
        )
    } else if !(request.generation_settings@ is Object) {
        r == Err::<ProviderSettings, InferenceError>(InferenceError::InvalidGenerationSettings)
    } else {
        match assoc::lookup(config.providers@, name) {
            Some(settings) => r == Ok::<ProviderSettings, InferenceError>(settings),
            None => r matches Err(InferenceError::Profile(message)) && message@
                == missing_profile_text(name, views(names_of(config.providers@))),
        }
    }
}

/// The result of a choice, by value.
pub open spec fn chosen(r: Result<&ProviderSettings, InferenceError>) -> Result<
    ProviderSettings,
    InferenceError,
> {
    match r {
        Ok(settings) => Ok(*settings),
        Err(e) => Err(e),
    }
}

/// Chooses the provider that a plugin's request goes to.
pub fn choose_provider<'a>(
    config: &'a Config,
    invocation: &InferenceInvocation,
    request: &InferenceRequest,
) -> (r: Result<&'a ProviderSettings, InferenceError>)
    ensures
        is_choice(chosen(r), *config, *invocation, *request),
{
    if !invocation.policy.capability_granted {
        let mut message = "secondary inference denied: plugin '".to_owned();
        message.push_str(invocation.caller.as_str());
        message.push_str("' lacks the secondary-inference capability");
        return Err(InferenceError::Denied(message));
    }
    if request.generation_settings.members().is_none() {
        return Err(InferenceError::InvalidGenerationSettings);
    }
    let name: &str = if request.profile_name.as_str().is_empty() {
        invocation.default_profile.as_str()
    } else {
        request.profile_name.as_str()
    };
    match config.resolve_provider_profile(name) {
        Ok(settings) => Ok(settings),
        Err(ConfigError::ProfileNotFound { name: missing, available }) => {
            let mut message = "provider profile '".to_owned();
            message.push_str(missing.as_str());
            message.push_str("' was not found; available profiles: ");
            message.push_str(format_available(&available).as_str());
            Err(InferenceError::Profile(message))
        },
        Err(_) => Err(InferenceError::Profile(String::new())),
    }
}

/// Where an inference that is made in earnest is recorded, if all that takes is
/// known.
pub open spec fn record_of(broker: InferenceBroker, invocation: InferenceInvocation) -> Option<
    InferenceRecord,
> {
    match (
        broker.database,
        invocation.session_id,
        invocation.branch_id,
        invocation.parent_attempt_id,
        invocation.config_hash,
    ) {
        (
            Some(database),
            Some(session_id),
            Some(branch_id),
            Some(parent_attempt_id),
            Some(config_hash),
        ) => Some(
            InferenceRecord { database, session_id, branch_id, parent_attempt_id, config_hash },
        ),
        _ => None,
    }
}

/// What preparing an inference comes to, given the request to the provider.
pub open spec fn is_preparation(
    r: Result<PreparedInference, InferenceError>,
    broker: InferenceBroker,
    invocation: InferenceInvocation,
    request: InferenceRequest,
    provider_request: JsonView,
) -> bool {
    let live = invocation.policy.mode == InferenceMode::Live;
    match canonical_hash_of(
        INFERENCE_REQUEST_DOMAIN@,
        request_json(
            profile_of(request, invocation),
            option_view(request.system_prompt),
            request.prompt@,
            settings_of(provider_request),
        ),
    ) {
        None => r == Err::<PreparedInference, InferenceError>(InferenceError::Canonicalize),
        Some(hash) => if live && record_of(broker, invocation) is None {
            r == Err::<PreparedInference, InferenceError>(
                InferenceError::MissingInvocationMetadata,
            )
        } else {
            r matches Ok(prepared) && {
                &&& prepared.profile_name@ == profile_of(request, invocation)
                &&& prepared.effective_settings@ == settings_of(provider_request)
                &&& prepared.request_hash@ == hash
                &&& prepared.record == if live {
                    record_of(broker, invocation)
                } else {
                    None
                }
                &&& prepared.asks == (live || broker.stubbed)
            }
        },
    }
}

/// The usage that was told last.
pub open spec fn last_usage(events: Seq<ProviderEvent>) -> Option<JsonView>
    decreases events.len(),
{
    if events.len() == 0 {
        None
    } else {
        match events.last() {
            ProviderEvent::Usage { usage } => Some(usage@),
            ProviderEvent::Other => last_usage(events.drop_last()),
        }
    }
}

/// The abstract value of a JSON value that may be absent.
pub open spec fn optional_json(value: Option<Json>) -> Option<JsonView> {
    match value {
        Some(v) => Some(v@),
        None => None,
    }
}

/// What an inference came to.
pub open spec fn is_conclusion(
    response: InferenceResponse,
    prepared: PreparedInference,
    invocation: InferenceInvocation,
    request: InferenceRequest,
    attempt_id: Option<EntityId>,
    result: ProviderResult,
) -> bool {
    let receipt = response.receipt;
    &&& response.text@ == result.text@
    &&& receipt.attempt_id == attempt_id
    &&& receipt.parent_attempt_id == invocation.parent_attempt_id
    &&& receipt.caller@ == invocation.caller@
    &&& option_view(receipt.system_prompt) == option_view(request.system_prompt)
    &&& receipt.profile_name@ == prepared.profile_name@
    &&& receipt.prompt@ == request.prompt@
    &&& receipt.effective_settings@ == prepared.effective_settings@
    &&& receipt.request_hash@ == prepared.request_hash@
    &&& receipt.status == InferenceStatus::Completed
    &&& receipt.response_hash@ == blob_hash_of(encode_utf8(result.text@))
    &&& receipt.text@ == result.text@
    &&& optional_json(receipt.usage) == last_usage(result.events@)
    &&& receipt.error is None
}

fn find_usage(events: &Vec<ProviderEvent>) -> (usage: Option<Json>)
    ensures
        optional_json(usage) == last_usage(events@),
{
    let mut i: usize = events.len();
    proof {
        assert(events@.take(i as int) =~= events@);
    }
    while i > 0
        invariant
            i <= events@.len(),
            last_usage(events@) == last_usage(events@.take(i as int)),
        decreases i,
    {
        proof {
            assert(events@.take(i as int).last() == events@[i - 1]);
            assert(events@.take(i as int).drop_last() =~= events@.take(i - 1));
        }
        if let ProviderEvent::Usage { usage } = &events[i - 1] {
            return Some(usage.copy());
        }
        i = i - 1;
    }
    None
}

/// Concludes an inference with what the provider answered.
pub fn conclude_inference(
    prepared: &PreparedInference,
    invocation: &InferenceInvocation,
    request: &InferenceRequest,
    attempt_id: Option<EntityId>,
    result: Result<ProviderResult, InferenceTransportError>,
) -> (r: Result<InferenceResponse, InferenceError>)
    ensures
        match result {
            Err(error) => r == Err::<InferenceResponse, InferenceError>(
                InferenceError::Transport(error.0),
            ),
            Ok(answer) => r matches Ok(response) && is_conclusion(
                response,
                *prepared,
                *invocation,
                *request,
                attempt_id,
                answer,
            ),
        },
{
    let answer = match result {
        Ok(answer) => answer,
        Err(error) => return Err(InferenceError::Transport(error.0)),
    };
    let response_hash = content_blob_hash(answer.text.as_str().as_bytes());
    let receipt = InferenceReceipt {
        attempt_id,
        parent_attempt_id: invocation.parent_attempt_id,
        caller: invocation.caller.clone(),
        system_prompt: copy_option(&request.system_prompt),
        profile_name: prepared.profile_name.clone(),
        prompt: request.prompt.clone(),
        effective_settings: prepared.effective_settings.copy(),
        request_hash: prepared.request_hash,
        status: InferenceStatus::Completed,
        response_hash,
        text: answer.text.clone(),
        usage: find_usage(&answer.events),
        error: None,
    };
    Ok(InferenceResponse { text: answer.text, receipt })
}

/// How an attempt in the background is marked once its provider has answered.
#[derive(Clone, Debug)]
pub enum AttemptMark {
    Failed { attempt_id: EntityId, message: String },
    Completed {
        attempt_id: EntityId,
        text: String,
        usage: Option<Json>,
        response_hash: ContentHash,
    },
}

/// What is to be done next for an inference.
#[derive(Debug)]
pub enum InferenceStep {
    /// An attempt in the background is to be begun.
    Begin(PreparedInference),
    /// The attempt in the background is to be marked, and the outcome holds if it
    /// could be.
    Mark { mark: AttemptMark, outcome: Result<InferenceResponse, InferenceError> },
    /// Nothing: that is the outcome.
    Done(Result<InferenceResponse, InferenceError>),
}

/// What is kept of an attempt whose provider could not be asked.
pub open spec fn transport_text(error: InferenceTransportError) -> Seq<char> {
    "secondary inference transport failed: "@ + error.0@
}

/// The mark of an attempt says what its provider answered.
pub open spec fn is_mark(
    mark: AttemptMark,
    id: EntityId,
    answered: Result<ProviderResult, InferenceTransportError>,
) -> bool {
    match (mark, answered) {
        (AttemptMark::Failed { attempt_id, message }, Err(error)) => attempt_id == id && message@
            == transport_text(error),
        (AttemptMark::Completed { attempt_id, text, usage, response_hash }, Ok(answer)) => {
            &&& attempt_id == id
            &&& text@ == answer.text@
            &&& optional_json(usage) == last_usage(answer.events@)
            &&& response_hash@ == blob_hash_of(encode_utf8(answer.text@))
        },
        _ => false,
    }
}

/// What the answer of a provider comes to.
pub open spec fn is_outcome(
    outcome: Result<InferenceResponse, InferenceError>,
    prepared: PreparedInference,
    invocation: InferenceInvocation,
    request: InferenceRequest,
    attempt_id: Option<EntityId>,
    answered: Result<ProviderResult, InferenceTransportError>,
) -> bool {
    match answered {
        Err(error) => outcome == Err::<InferenceResponse, InferenceError>(
            InferenceError::Transport(error.0),
        ),
        Ok(answer) => outcome matches Ok(response) && is_conclusion(
            response,
            prepared,
            invocation,
            request,
            attempt_id,
            answer,
        ),
    }
}

/// The answer is what the transport gives to the request, or an empty one where
/// no provider is asked.
pub open spec fn is_answered<T: InferenceTransport>(
    transport: T,
    settings: ProviderSettings,
    provider_request: Json,
    prepared: PreparedInference,
    answered: Result<ProviderResult, InferenceTransportError>,
) -> bool {
    if prepared.asks {
        call_ensures(T::generate, (&transport, &settings, &provider_request), answered)
    } else {
        answered matches Ok(answer) && answer.text@.len() == 0 && answer.events@.len() == 0
    }
}

/// What is to be done for an inference that is ready: an attempt that is to be
/// recorded is begun first, and marked once the provider has answered.
pub open spec fn is_step_when_ready<T: InferenceTransport>(
    step: InferenceStep,
    transport: T,
    settings: ProviderSettings,
    invocation: InferenceInvocation,
    request: InferenceRequest,
    provider_request: Json,
    prepared: PreparedInference,
    begun: Option<EntityId>,
) -> bool {
    match (prepared.record, begun) {
        (Some(_), None) => step == InferenceStep::Begin(prepared),
        (Some(_), Some(id)) => step matches InferenceStep::Mark { mark, outcome } && exists|
            answered: Result<ProviderResult, InferenceTransportError>,
        |
            {
                &&& #[trigger] is_mark(mark, id, answered)
                &&& is_outcome(outcome, prepared, invocation, request, Some(id), answered)
                &&& is_answered(transport, settings, provider_request, prepared, answered)
            },
        (None, _) => step matches InferenceStep::Done(outcome) && exists|
            answered: Result<ProviderResult, InferenceTransportError>,
        |
            {
                &&& #[trigger] is_outcome(outcome, prepared, invocation, request, None, answered)
                &&& is_answered(transport, settings, provider_request, prepared, answered)
            },
    }
}

/// What is to be done for an inference whose provider was chosen.
pub open spec fn is_step_when_chosen<T: InferenceTransport>(
    step: InferenceStep,
    broker: InferenceBroker,
    transport: T,
    settings: ProviderSettings,
    invocation: InferenceInvocation,
    request: InferenceRequest,
    built: Result<Json, String>,
    begun: Option<EntityId>,
) -> bool {
    match built {
        Err(message) => step == InferenceStep::Done(Err(InferenceError::Provider(message))),
        Ok(provider_request) => exists|prepared: Result<PreparedInference, InferenceError>|
            #[trigger] is_preparation(
                prepared,
                broker,
                invocation,
                request,
                provider_request@,
            ) && match prepared {
                Err(e) => step == InferenceStep::Done(Err(e)),
                Ok(ready) => is_step_when_ready(
                    step,
                    transport,
                    settings,
                    invocation,
                    request,
                    provider_request,
                    ready,
                    begun,
                ),
            },
    }
}

/// What is to be done for an inference, given the request that was built for the
/// provider and the attempt that was begun.
pub open spec fn is_step<T: InferenceTransport>(
    step: InferenceStep,
    broker: InferenceBroker,
    config: Config,
    transport: T,
    invocation: InferenceInvocation,
    request: InferenceRequest,
    built: Result<Json, String>,
    begun: Option<EntityId>,
) -> bool {
    exists|choice: Result<ProviderSettings, InferenceError>|
        #[trigger] is_choice(choice, config, invocation, request) && match choice {
            Err(e) => step == InferenceStep::Done(Err(e)),
            Ok(settings) => is_step_when_chosen(
                step,
                broker,
                transport,
                settings,
                invocation,
                request,
                built,
                begun,
            ),
        }
}

fn mark_attempt(
    id: EntityId,
    answered: &Result<ProviderResult, InferenceTransportError>,
) -> (mark: AttemptMark)
    ensures
        is_mark(mark, id, *answered),
{
    match answered {
        Err(error) => {
            let mut message = "secondary inference transport failed: ".to_owned();
            message.push_str(error.0.as_str());
            AttemptMark::Failed { attempt_id: id, message }
        },
        Ok(answer) => AttemptMark::Completed {
            attempt_id: id,
            text: answer.text.clone(),
            usage: find_usage(&answer.events),
            response_hash: content_blob_hash(answer.text.as_str().as_bytes()),
        },
    }
}

/// What an inference comes to once its attempt was marked, or could not be.
pub fn after_marking(
    outcome: Result<InferenceResponse, InferenceError>,
    marked: Result<(), String>,
) -> (r: Result<InferenceResponse, InferenceError>)
    ensures
        r == match marked {
            Ok(()) => outcome,
            Err(message) => Err::<InferenceResponse, InferenceError>(
                InferenceError::Attempt(message),
            ),
        },
{
    match marked {
        Ok(()) => outcome,
        Err(message) => Err(InferenceError::Attempt(message)),
    }
}

impl InferenceBroker {
    /// A broker that asks providers.
    pub fn live() -> (broker: Self)
        ensures
            !broker.stubbed,
            broker.database is None,
    {
        InferenceBroker { stubbed: false, database: None }
    }

    /// A broker whose transport is a stub.
    pub fn stub() -> (broker: Self)
        ensures
            broker.stubbed,
            broker.database is None,
    {
        InferenceBroker { stubbed: true, database: None }
    }

    /// The broker with a place to record inferences.
    pub fn with_database(self, database: String) -> (broker: Self)
        ensures
            broker.stubbed == self.stubbed,
            broker.database == Some(database),
    {
        InferenceBroker { stubbed: self.stubbed, database: Some(database) }
    }

    /// Prepares an inference whose provider was chosen, given the request to
    /// that provider.
    pub fn prepare(
        &self,
        invocation: &InferenceInvocation,
        request: &InferenceRequest,
        provider_request: &Json,
    ) -> (r: Result<PreparedInference, InferenceError>)
        ensures
            is_preparation(r, *self, *invocation, *request, provider_request@),
    {
        let name: &str = if request.profile_name.as_str().is_empty() {
            invocation.default_profile.as_str()
        } else {
            request.profile_name.as_str()
        };
        let settings = effective_settings(provider_request);
        let request_hash = match inference_request_hash(
            name,
            &request.system_prompt,
            request.prompt.as_str(),
            &settings,
        ) {
            Ok(hash) => hash,
            Err(_) => return Err(InferenceError::Canonicalize),
        };
        let live = invocation.policy.mode == InferenceMode::Live;
        let record: Option<InferenceRecord> = if live {
            match (
                &self.database,
                invocation.session_id,
                invocation.branch_id,
                invocation.parent_attempt_id,
                invocation.config_hash,
            ) {
                (
                    Some(database),
                    Some(session_id),
                    Some(branch_id),
                    Some(parent_attempt_id),
                    Some(config_hash),
                ) => Some(
                    InferenceRecord {
                        database: database.clone(),
                        session_id,
                        branch_id,
                        parent_attempt_id,
                        config_hash,
                    },
                ),
                _ => return Err(InferenceError::MissingInvocationMetadata),
            }
        } else {
            None
        };
        Ok(
            PreparedInference {
                profile_name: name.to_owned(),
                effective_settings: settings,
                request_hash,
                record,
                asks: live || self.stubbed,
            },
        )
    }

    /// Makes an inference for a plugin, as far as it can be made: `built` is the
    /// request to the provider that was chosen, and `begun` the attempt that was
    /// begun for it.
    pub fn infer<T: InferenceTransport>(
        &self,
        config: &Config,
        invocation: &InferenceInvocation,
        request: &InferenceRequest,
        built: Result<Json, String>,
        begun: Option<EntityId>,
        transport: &T,
    ) -> (step: InferenceStep)
        ensures
            is_step(step, *self, *config, *transport, *invocation, *request, built, begun),
    {
        let choice = choose_provider(config, invocation, request);
        let ghost chosen_provider = chosen(choice);
        proof {
            assert(is_choice(chosen_provider, *config, *invocation, *request));
        }
        let settings = match choice {
            Ok(settings) => settings,
            Err(e) => return InferenceStep::Done(Err(e)),
        };
        let provider_request = match built {
            Ok(provider_request) => provider_request,
            Err(message) => return InferenceStep::Done(Err(InferenceError::Provider(message))),
        };
        let prepared = self.prepare(invocation, request, &provider_request);
        let ghost preparation = prepared;
        proof {
            assert(is_preparation(
                preparation,
                *self,
                *invocation,
                *request,
                provider_request@,
            ));
        }
        let ready = match prepared {
            Ok(ready) => ready,
            Err(e) => return InferenceStep::Done(Err(e)),
        };
        let attempt: Option<EntityId> = if ready.record.is_some() {
            begun
        } else {
            None
        };
        if ready.record.is_some() && attempt.is_none() {
            return InferenceStep::Begin(ready);
        }
        let answered: Result<ProviderResult, InferenceTransportError> = if ready.asks {
            transport.generate(settings, &provider_request)
        } else {
            Ok(ProviderResult { text: String::new(), events: Vec::new() })
        };
        let ghost answer = answered;
        proof {
            assert(is_answered(*transport, *settings, provider_request, ready, answer));
        }
        let step = match attempt {
            Some(id) => {
                let mark = mark_attempt(id, &answered);
                let outcome = conclude_inference(&ready, invocation, request, attempt, answered);
                proof {
                    assert(is_mark(mark, id, answer));
                }
                InferenceStep::Mark { mark, outcome }
            },
            None => {
                let outcome = conclude_inference(&ready, invocation, request, attempt, answered);
                proof {
                    assert(is_outcome(outcome, ready, *invocation, *request, None, answer));
                }
                InferenceStep::Done(outcome)
            },
        };
        proof {
            assert(is_step_when_ready(
                step,
                *transport,
                *settings,
                *invocation,
                *request,
                provider_request,
                ready,
                begun,
            ));
        }
        step
    }
}

/// A plugin without the capability is told so, and neither is an attempt begun
/// nor a provider asked.
pub proof fn law_inference_needs_the_capability<T: InferenceTransport>(
    step: InferenceStep,
    broker: InferenceBroker,
    config: Config,
    transport: T,
    invocation: InferenceInvocation,
    request: InferenceRequest,
    built: Result<Json, String>,
    begun: Option<EntityId>,
)
    requires
        is_step(step, broker, config, transport, invocation, request, built, begun),
        !invocation.policy.capability_granted,
    ensures
        step matches InferenceStep::Done(Err(InferenceError::Denied(message))) && message@
            == denial_text(invocation.caller@),
{
}

/// An attempt in the background, as it is kept.
#[derive(Clone, Debug)]
pub struct BackgroundAttempt {
    pub background: bool,
    pub parent_attempt_id: Option<EntityId>,
    pub caller: Option<String>,
    pub provider_profile: Option<String>,
    pub effective_generation_settings: Option<Json>,
    pub provider_request_hash: Option<ContentHash>,
    pub response_hash: Option<ContentHash>,
    pub usage: Option<Json>,
    pub status: AttemptStatus,
}

/// A receipt tells what is kept of its attempt.
pub open spec fn is_kept_as_told(attempt: BackgroundAttempt, receipt: InferenceReceipt) -> bool {
    &&& attempt.background
    &&& attempt.parent_attempt_id == receipt.parent_attempt_id
    &&& option_view(attempt.caller) == Some(receipt.caller@)
    &&& option_view(attempt.provider_profile) == Some(receipt.profile_name@)
    &&& attempt.effective_generation_settings matches Some(settings) && equal_json(
        settings@,
        receipt.effective_settings@,
    )
    &&& optional_hash(attempt.provider_request_hash) == Some(receipt.request_hash@)
    &&& optional_hash(attempt.response_hash) == Some(receipt.response_hash@)
    &&& equal_optional_json(optional_json(attempt.usage), optional_json(receipt.usage))
    &&& attempt.status == AttemptStatus::Completed
}

/// Two values are equal where there are any.
pub open spec fn equal_optional_json(left: Option<JsonView>, right: Option<JsonView>) -> bool {
    match (left, right) {
        (Some(a), Some(b)) => equal_json(a, b),
        (None, None) => true,
        _ => false,
    }
}

fn same_optional_json(left: &Option<Json>, right: &Option<Json>) -> (r: bool)
    ensures
        r == equal_optional_json(optional_json(*left), optional_json(*right)),
{
    match (left, right) {
        (Some(a), Some(b)) => a.same(b),
        (None, None) => true,
        _ => false,
    }
}

fn text_matches(left: &Option<String>, right: &str) -> (r: bool)
    ensures
        r == (option_view(*left) == Some(right@)),
{
    match left {
        Some(text) => text::same(text.as_str(), right),
        None => false,
    }
}

fn hash_matches(left: &Option<ContentHash>, right: &ContentHash) -> (r: bool)
    ensures
        r == (optional_hash(*left) == Some(right@)),
{
    match left {
        Some(hash) => hash.same(right),
        None => false,
    }
}

fn check_kept(attempt: &BackgroundAttempt, receipt: &InferenceReceipt) -> (r: bool)
    ensures
        r == is_kept_as_told(*attempt, *receipt),
{
    let same_settings = match &attempt.effective_generation_settings {
        Some(settings) => settings.same(&receipt.effective_settings),
        None => false,
    };
    let same_parent = match (attempt.parent_attempt_id, receipt.parent_attempt_id) {
        (Some(a), Some(b)) => a == b,
        (None, None) => true,
        _ => false,
    };
    attempt.background && same_parent && text_matches(&attempt.caller, receipt.caller.as_str())
        && text_matches(&attempt.provider_profile, receipt.profile_name.as_str()) && same_settings
        && hash_matches(&attempt.provider_request_hash, &receipt.request_hash) && hash_matches(
        &attempt.response_hash,
        &receipt.response_hash,
    ) && same_optional_json(&attempt.usage, &receipt.usage) && attempt.status
        == AttemptStatus::Completed
}

/// Checks that a receipt records a completed inference and tells what is kept of
/// its attempt.
pub fn validate_persisted_inference_receipt(
    receipt: &InferenceReceipt,
    attempt: Option<&BackgroundAttempt>,
) -> (r: Result<(), InferenceError>)
    ensures
        match r {
            Ok(()) => receipt_is_valid(*receipt) && receipt.attempt_id is Some && attempt is Some
                && is_kept_as_told(*attempt->0, *receipt),
            Err(InferenceError::InvalidReceipt) => told_request_hash(*receipt) is Some && !(
            receipt_is_valid(*receipt) && receipt.attempt_id is Some && attempt is Some
                && is_kept_as_told(*attempt->0, *receipt)),
            Err(InferenceError::Canonicalize) => told_request_hash(*receipt) is None,
            Err(_) => false,
        },
{
    match validate_inference_receipt(receipt) {
        Ok(()) => {},
        Err(e) => return Err(e),
    }
    if receipt.attempt_id.is_none() {
        return Err(InferenceError::InvalidReceipt);
    }
    match attempt {
        Some(kept) => if check_kept(kept, receipt) {
            Ok(())
        } else {
            Err(InferenceError::InvalidReceipt)
        },
        None => Err(InferenceError::InvalidReceipt),
    }
}

/// The receipt of an inference that was made as prepared records a completed
/// inference.
pub proof fn law_receipts_are_valid(
    broker: InferenceBroker,
    prepared: PreparedInference,
    response: InferenceResponse,
    invocation: InferenceInvocation,
    request: InferenceRequest,
    provider_request: JsonView,
    attempt_id: Option<EntityId>,
    result: ProviderResult,
)
    requires
        is_preparation(Ok(prepared), broker, invocation, request, provider_request),
        is_conclusion(response, prepared, invocation, request, attempt_id, result),
    ensures
        receipt_is_valid(response.receipt),
{
}

/// A dry run is recorded nowhere and asks a provider only where that is a stand-in. An
/// inference in earnest asks one and is recorded, with all that takes.
pub proof fn law_only_live_inferences_are_recorded(
    prepared: PreparedInference,
    broker: InferenceBroker,
    invocation: InferenceInvocation,
    request: InferenceRequest,
    provider_request: JsonView,
)
    requires
        is_preparation(Ok(prepared), broker, invocation, request, provider_request),
    ensures
        invocation.policy.mode == InferenceMode::DryRun ==> prepared.record is None
            && prepared.asks == broker.stubbed,
        invocation.policy.mode == InferenceMode::Live ==> {
            &&& prepared.asks
            &&& prepared.record matches Some(record)
            &&& broker.database == Some(record.database)
            &&& invocation.session_id == Some(record.session_id)
            &&& invocation.branch_id == Some(record.branch_id)
            &&& invocation.parent_attempt_id == Some(record.parent_attempt_id)
            &&& invocation.config_hash == Some(record.config_hash)
        },
{
}

/// The provider that is chosen is the one that the request names, or the one of the
/// circumstances where it names none.
pub proof fn law_the_named_profile_is_chosen(
    settings: ProviderSettings,
    config: Config,
    invocation: InferenceInvocation,
    request: InferenceRequest,
)
    requires
        is_choice(Ok(settings), config, invocation, request),
    ensures
        invocation.policy.capability_granted,
        request.generation_settings@ is Object,
        exists|i: int|
            0 <= i < config.providers@.len() && (#[trigger] config.providers@[i]).1 == settings
                && config.providers@[i].0@ == if request.profile_name@.len() > 0 {
                request.profile_name@
            } else {
                invocation.default_profile@
            },
{
    let name = if request.profile_name@.len() > 0 {
        request.profile_name@
    } else {
        invocation.default_profile@
    };
    assoc::lemma_index_of(config.providers@, name);
    let at = assoc::index_of(config.providers@, name);
    assert(config.providers@[at].1 == settings);
}

/// Of the usages that a provider tells the last one counts.
pub proof fn law_the_last_usage_counts(events: Seq<ProviderEvent>, i: int, usage: Json)
    requires
        0 <= i < events.len(),
        events[i] == (ProviderEvent::Usage { usage }),
        forall|k: int| i < k < events.len() ==> #[trigger] events[k] == ProviderEvent::Other,
    ensures
        last_usage(events) == Some(usage@),
    decreases events.len(),
{
    if i < events.len() - 1 {
        assert(events[events.len() - 1] == ProviderEvent::Other);
        law_the_last_usage_counts(events.drop_last(), i, usage);
    }
}

} // verus!
