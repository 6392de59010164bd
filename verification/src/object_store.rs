//! Object-store access reduced to its decisions: the error surface, which
//! credentials a configuration selects, when a failed request is retried,
//! and the paging state machine of a listing.

use vstd::prelude::*;

verus! {

/// What kind of failure the S3 transport reported.
#[derive(Clone, Copy, Debug, PartialEq, Eq, Structural)]
pub enum S3ErrorSource {
    /// The request never got valid credentials.
    Credentials,
    /// The service answered with a typed error (missing key or bucket).
    Service,
    /// The service answered 5xx; worth retrying.
    ServerError,
    /// Anything else.
    Other,
}

/// A specialized error for object store operations.
#[derive(Clone, Debug)]
pub enum ObjectStoreError {
    DataDoesNotMatchLength { expected: usize, actual: usize },
    NoData { bucket: String, location: String },
    UnableToDeleteData { source: S3ErrorSource, bucket: String, location: String },
    UnableToGetData { source: S3ErrorSource, bucket: String, location: String },
    UnableToGetPieceOfData { bucket: String, location: String },
    UnableToPutData { source: S3ErrorSource, bucket: String, location: String },
    UnableToListData { source: S3ErrorSource, bucket: String },
    UnableToParseLastModified { bucket: String },
    UnableToBufferStream,
    InvalidRegion { region: String },
    MissingAccessKey,
    MissingSecretAccessKey,
}

impl ObjectStoreError {
    /// Whether the failure traces back to missing or rejected credentials —
    /// the case worth a hint about the environment.
    pub fn s3_error_due_to_credentials(&self) -> (r: bool)
        ensures
            r == match self {
                ObjectStoreError::UnableToPutData { source, .. } => source is Credentials,
                ObjectStoreError::UnableToGetData { source, .. } => source is Credentials,
                ObjectStoreError::UnableToDeleteData { source, .. } => source is Credentials,
                ObjectStoreError::UnableToListData { source, .. } => source is Credentials,
                _ => false,
            },
    {
        match self {
            ObjectStoreError::UnableToPutData { source, .. } => matches!(
                source,
                S3ErrorSource::Credentials
            ),
            ObjectStoreError::UnableToGetData { source, .. } => matches!(
                source,
                S3ErrorSource::Credentials
            ),
            ObjectStoreError::UnableToDeleteData { source, .. } => matches!(
                source,
                S3ErrorSource::Credentials
            ),
            ObjectStoreError::UnableToListData { source, .. } => matches!(
                source,
                S3ErrorSource::Credentials
            ),
            _ => false,
        }
    }
}

/// Which credentials provider a configuration selects.
#[derive(Clone, Copy, Debug, PartialEq, Eq, Structural)]
pub enum CredentialSource {
    /// Key, secret and session token all given.
    StaticWithToken,
    /// Key and secret given, no session token.
    StaticMinimal,
    /// Nothing given: ask the instance metadata service.
    InstanceMetadata,
}

/// Selects the credentials provider: both key and secret, optionally with a
/// token, give a static provider; neither gives the instance metadata
/// provider; one without the other is a configuration error.
pub fn choose_credentials(
    access_key_id: &Option<String>,
    secret_access_key: &Option<String>,
    session_token: &Option<String>,
) -> (r: Result<CredentialSource, ObjectStoreError>)
    ensures
        match (access_key_id, secret_access_key, session_token) {
            (Option::Some(_), Option::Some(_), Option::Some(_)) => r is Ok && r->Ok_0
                is StaticWithToken,
            (Option::Some(_), Option::Some(_), Option::None) => r is Ok && r->Ok_0
                is StaticMinimal,
            (Option::None, Option::Some(_), _) => r is Err && r->Err_0 is MissingAccessKey,
            (Option::Some(_), Option::None, _) => r is Err && r->Err_0 is MissingSecretAccessKey,
            (Option::None, Option::None, _) => r is Ok && r->Ok_0 is InstanceMetadata,
        },
{
    match (access_key_id, secret_access_key, session_token) {
        (Some(_), Some(_), Some(_)) => Ok(CredentialSource::StaticWithToken),
        (Some(_), Some(_), None) => Ok(CredentialSource::StaticMinimal),
        (None, Some(_), _) => Err(ObjectStoreError::MissingAccessKey),
        (Some(_), None, _) => Err(ObjectStoreError::MissingSecretAccessKey),
        (None, None, _) => Ok(CredentialSource::InstanceMetadata),
    }
}

/// How many times a request is retried before giving up.
pub const MAX_REQUEST_RETRIES: u32 = 10;

/// How long to wait before retrying, in milliseconds.
pub const RETRY_WAIT_MS: u64 = 200;

/// What to do after a failed request.
#[derive(Clone, Copy, Debug, PartialEq, Eq, Structural)]
pub enum RetryDecision {
    /// Wait this long and try again.
    Retry { wait_ms: u64 },
    /// Give up and surface the error.
    Fail,
}

/// Decides whether a failed request is tried again: only server-side
/// failures are retried, at most `MAX_REQUEST_RETRIES` times, with a fixed
/// wait. Counts the attempt.
pub fn retry_decision(attempts: &mut u32, is_server_error: bool) -> (r: RetryDecision)
    requires
        *old(attempts) < u32::MAX,
    ensures
        *final(attempts) == *old(attempts) + 1,
        r == if is_server_error && *old(attempts) + 1 <= MAX_REQUEST_RETRIES {
            RetryDecision::Retry { wait_ms: RETRY_WAIT_MS }
        } else {
            RetryDecision::Fail
        },
{
    *attempts = *attempts + 1;
    if is_server_error && *attempts <= MAX_REQUEST_RETRIES {
        RetryDecision::Retry { wait_ms: RETRY_WAIT_MS }
    } else {
        RetryDecision::Fail
    }
}

/// Where a paged listing stands.
#[derive(Clone, Debug, PartialEq, Eq)]
pub enum ListState {
    /// No request made yet.
    Start,
    /// A page was received and more follow; carries the continuation token.
    HasMore(String),
    /// The last page was received.
    Done,
}

/// The continuation token to send for the next page: `None` at the start,
/// the stored token while pages remain, and no request at all once done.
pub fn list_continuation(state: &ListState) -> (r: Option<Option<String>>)
    ensures
        match state {
            ListState::Start => r == Some(Option::<String>::None),
            ListState::HasMore(t) => {
                &&& r is Some
                &&& r->Some_0 is Some
                &&& r->Some_0->Some_0@ == t@
            },
            ListState::Done => r is None,
        },
{
    match state {
        ListState::Start => Some(None),
        ListState::HasMore(t) => {
            let mut copy = String::new();
            vstd::string::StringExecFns::append(&mut copy, t.as_str());
            Some(Some(copy))
        },
        ListState::Done => None,
    }
}

/// The state after one page: a continuation token in the reply means more
/// pages follow, its absence ends the listing.
pub fn list_next_state(next_continuation_token: Option<String>) -> (r: ListState)
    ensures
        match next_continuation_token {
            Option::Some(t) => r is HasMore && r->0@ == t@,
            Option::None => r is Done,
        },
{
    match next_continuation_token {
        Some(t) => ListState::HasMore(t),
        None => ListState::Done,
    }
}

} // verus!
