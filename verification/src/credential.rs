//! Credentials that a host keeps outside the engine.
use vstd::prelude::*;

use crate::text;

verus! {

pub const SERVICE_NAME: &'static str = "stcli";

pub const KEYRING_TIMEOUT_SECONDS: u64 = 5;

/// Why a credential cannot be had.
#[derive(Clone, Debug, Eq, PartialEq)]
pub enum CredentialError {
    Missing,
    Store(String),
}

/// Where credentials come from.
pub trait CredentialResolver {
    /// The credential kept under `key`.
    fn get(&self, key: &str) -> Result<String, CredentialError>;
}

/// What a keyring answers to a request.
pub enum KeyringReply<T> {
    Value(T),
    NoEntry,
    Failure(String),
    Silent,
}

/// The message for a keyring that did not answer in time.
pub open spec fn stalled_message(seconds: u64) -> Seq<char> {
    "Credential Store did not respond within "@ + text::decimal(seconds as nat)
        + " seconds; the system keyring or Secret Service may be locked or stalled. Use `api_key_env` to supply the key via an environment variable instead."@
}

/// A reply of the keyring, awaited for as long as a keyring is, amounts to that.
pub open spec fn is_settled<T>(reply: KeyringReply<T>, r: Result<T, CredentialError>) -> bool {
    match (reply, r) {
        (KeyringReply::Value(v), Ok(w)) => v == w,
        (KeyringReply::NoEntry, Err(CredentialError::Missing)) => true,
        (KeyringReply::Failure(m), Err(CredentialError::Store(n))) => m == n,
        (KeyringReply::Silent, Err(CredentialError::Store(n))) => n@ == stalled_message(
            KEYRING_TIMEOUT_SECONDS,
        ),
        _ => false,
    }
}

/// What a reply of the keyring amounts to: its value, a missing credential, or
/// a failure of the store. A keyring that stays silent counts as a failure.
pub fn settle<T>(reply: KeyringReply<T>, seconds: u64) -> (r: Result<T, CredentialError>)
    ensures
        match (reply, r) {
            (KeyringReply::Value(v), Ok(w)) => v == w,
            (KeyringReply::NoEntry, Err(CredentialError::Missing)) => true,
            (KeyringReply::Failure(m), Err(CredentialError::Store(n))) => m == n,
            (KeyringReply::Silent, Err(CredentialError::Store(n))) => n@ == stalled_message(
                seconds,
            ),
            _ => false,
        },
{
    match reply {
        KeyringReply::Value(value) => Ok(value),
        KeyringReply::NoEntry => Err(CredentialError::Missing),
        KeyringReply::Failure(message) => Err(CredentialError::Store(message)),
        KeyringReply::Silent => {
            let mut message = "Credential Store did not respond within ".to_owned();
            message.push_str(text::decimal_text(seconds).as_str());
            message.push_str(
                " seconds; the system keyring or Secret Service may be locked or stalled. Use `api_key_env` to supply the key via an environment variable instead.",
            );
            Err(CredentialError::Store(message))
        },
    }
}

/// What the keyring's reply to a request for a credential amounts to.
pub fn get_credential(reply: KeyringReply<String>) -> (r: Result<String, CredentialError>)
    ensures
        is_settled(reply, r),
{
    settle(reply, KEYRING_TIMEOUT_SECONDS)
}

/// What the keyring's reply to keeping a credential amounts to.
pub fn set_credential(reply: KeyringReply<()>) -> (r: Result<(), CredentialError>)
    ensures
        is_settled(reply, r),
{
    settle(reply, KEYRING_TIMEOUT_SECONDS)
}

/// What the keyring's reply to forgetting a credential amounts to.
pub fn delete_credential(reply: KeyringReply<()>) -> (r: Result<(), CredentialError>)
    ensures
        is_settled(reply, r),
{
    settle(reply, KEYRING_TIMEOUT_SECONDS)
}

} // verus!
