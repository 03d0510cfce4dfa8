//! Chat messages, and the providers that answer them.
use vstd::prelude::*;

verus! {

/// Who speaks in a chat message.
#[derive(Clone, Copy, Debug, Eq, PartialEq, Structural)]
pub enum ChatRole {
    System,
    User,
    Assistant,
}

/// How a provider is reached.
#[derive(Clone, Debug, Eq, PartialEq)]
pub struct ProviderSettings {
    pub id: String,
    pub base_url: String,
    pub chat_completions_path: String,
    pub api_key_env: Option<String>,
    pub credential_key: Option<String>,
    pub static_headers: Vec<(String, String)>,
    pub timeout_seconds: u64,
    pub ca_certificate_pem: Option<String>,
    pub model: String,
    pub stream: bool,
}

} // verus!
