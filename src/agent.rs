use vstd::prelude::*;

use crate::auth::{
    get_fresh_auth_token, refresh_request, token_endpoint, token_endpoint_text, token_outcome,
    AuthError, RefreshTokenRequest, TokenReply,
};
use crate::config::{ConfigError, CredentialRecord};
use crate::hardware::{CollectError, NodeHardware};
use crate::heartbeat::{
    heartbeat_endpoint, heartbeat_endpoint_text, heartbeat_outcome, heartbeat_result,
    HeartbeatError, HeartbeatReply,
};

verus! {

/// Why a run ended without reporting, with the error of the step that failed.
#[derive(Debug, PartialEq, Eq)]
pub enum AgentError {
    Config(ConfigError),
    Auth(AuthError),
    Collect(CollectError),
    Heartbeat(HeartbeatError),
    /// The rotated token could not be written; it is lost, and the store still
    /// holds the token before it.
    Persist { message: String },
    /// An event that the current state does not wait for.
    UnexpectedEvent,
}

/// Where one run of the agent stands, with what it has gathered so far.
#[derive(Debug, PartialEq, Eq)]
pub enum AgentState {
    Start { skip_heartbeat: bool },
    LoadingCredentials,
    RefreshingToken { record: CredentialRecord },
    CollectingInventory { record: Option<CredentialRecord>, access_token: Option<String> },
    SendingHeartbeat { record: CredentialRecord, access_token: String, hardware: NodeHardware },
    PersistingToken { hardware: NodeHardware, token: String },
    Done { hardware: NodeHardware },
    Failed { error: AgentError },
}

/// What the outside world reports back to the agent.
#[derive(Debug, PartialEq, Eq)]
pub enum Event {
    Begin,
    CredentialsLoaded { result: Result<CredentialRecord, ConfigError> },
    TokenReplied { reply: TokenReply },
    InventoryCollected { result: Result<NodeHardware, CollectError> },
    HeartbeatReplied { reply: HeartbeatReply },
    TokenPersisted { result: Result<(), String> },
}

/// What the agent asks the outside world to do next.
#[derive(Debug, PartialEq, Eq)]
pub enum Action {
    LoadCredentials,
    RequestToken { endpoint: String, request: RefreshTokenRequest },
    CollectInventory,
    SendHeartbeat { endpoint: String, access_token: String },
    PersistToken { token: String },
    Finish,
    Abort,
}

/// Whether the credentials name a token endpoint, so that the stored token is a
/// refresh token to exchange first.
pub open spec fn has_client(rec: CredentialRecord) -> bool {
    rec.auth0_client_id is Some && rec.auth0_client_domain is Some
}

/// The state after an event: each step goes on to the next on success and to
/// `Failed` with its error otherwise; `Done` and `Failed` stay as they are.
pub open spec fn transition(s: AgentState, e: Event) -> AgentState {
    match s {
        AgentState::Start { skip_heartbeat } => match e {
            Event::Begin => if skip_heartbeat {
                AgentState::CollectingInventory { record: None, access_token: None }
            } else {
                AgentState::LoadingCredentials
            },
            _ => AgentState::Failed { error: AgentError::UnexpectedEvent },
        },
        AgentState::LoadingCredentials => match e {
            Event::CredentialsLoaded { result } => match result {
                Ok(rec) => if has_client(rec) {
                    AgentState::RefreshingToken { record: rec }
                } else {
                    AgentState::CollectingInventory {
                        record: Some(rec),
                        access_token: Some(rec.auth_token),
                    }
                },
                Err(err) => AgentState::Failed { error: AgentError::Config(err) },
            },
            _ => AgentState::Failed { error: AgentError::UnexpectedEvent },
        },
        AgentState::RefreshingToken { record } => match e {
            Event::TokenReplied { reply } => match token_outcome(reply) {
                Ok(t) => AgentState::CollectingInventory {
                    record: Some(record),
                    access_token: Some(t),
                },
                Err(err) => AgentState::Failed { error: AgentError::Auth(err) },
            },
            _ => AgentState::Failed { error: AgentError::UnexpectedEvent },
        },
        AgentState::CollectingInventory { record, access_token } => match e {
            Event::InventoryCollected { result } => match result {
                Ok(h) => match (record, access_token) {
                    (Some(rec), Some(t)) => AgentState::SendingHeartbeat {
                        record: rec,
                        access_token: t,
                        hardware: h,
                    },
                    _ => AgentState::Done { hardware: h },
                },
                Err(err) => AgentState::Failed { error: AgentError::Collect(err) },
            },
            _ => AgentState::Failed { error: AgentError::UnexpectedEvent },
        },
        AgentState::SendingHeartbeat { record, access_token, hardware } => match e {
            Event::HeartbeatReplied { reply } => match heartbeat_outcome(reply) {
                Ok(t) => AgentState::PersistingToken { hardware, token: t },
                Err(err) => AgentState::Failed { error: AgentError::Heartbeat(err) },
            },
            _ => AgentState::Failed { error: AgentError::UnexpectedEvent },
        },
        AgentState::PersistingToken { hardware, token } => match e {
            Event::TokenPersisted { result } => match result {
                Ok(()) => AgentState::Done { hardware },
                Err(message) => AgentState::Failed { error: AgentError::Persist { message } },
            },
            _ => AgentState::Failed { error: AgentError::UnexpectedEvent },
        },
        AgentState::Done { hardware } => AgentState::Done { hardware },
        AgentState::Failed { error } => AgentState::Failed { error },
    }
}

/// Whether `a` is what the agent asks for in state `s`.
pub open spec fn action_fits(s: AgentState, a: Action) -> bool {
    match s {
        AgentState::LoadingCredentials => a is LoadCredentials,
        AgentState::RefreshingToken { record } => match (
            record.auth0_client_id,
            record.auth0_client_domain,
        ) {
            (Some(id), Some(domain)) => a matches Action::RequestToken { endpoint, request }
                && endpoint@ == token_endpoint_text(domain@) && request.grant_type@
                == "refresh_token"@ && request.client_id@ == id@ && request.refresh_token@
                == record.auth_token@ && request.scope@ == "openid offline_access nodeagent"@,
            _ => a is Abort,
        },
        AgentState::CollectingInventory { .. } => a is CollectInventory,
        AgentState::SendingHeartbeat { record, access_token, .. } => a matches Action::SendHeartbeat {
            endpoint,
            access_token: t,
        } && endpoint@ == heartbeat_endpoint_text(record.api_url@, record.node_id@) && t
            == access_token,
        AgentState::PersistingToken { token, .. } => a == Action::PersistToken { token },
        AgentState::Done { .. } => a is Finish,
        _ => a is Abort,
    }
}

/// What the agent asks for in state `s`.
pub fn next_action(s: &AgentState) -> (a: Action)
    ensures
        action_fits(*s, a),
{
    match s {
        AgentState::LoadingCredentials => Action::LoadCredentials,
        AgentState::RefreshingToken { record } => match (
            &record.auth0_client_id,
            &record.auth0_client_domain,
        ) {
            (Some(id), Some(domain)) => Action::RequestToken {
                endpoint: token_endpoint(domain.as_str()),
                request: refresh_request(record.auth_token.as_str(), id.as_str()),
            },
            _ => Action::Abort,
        },
        AgentState::CollectingInventory { .. } => Action::CollectInventory,
        AgentState::SendingHeartbeat { record, access_token, .. } => Action::SendHeartbeat {
            endpoint: heartbeat_endpoint(record.api_url.as_str(), record.node_id.as_str()),
            access_token: access_token.clone(),
        },
        AgentState::PersistingToken { token, .. } => Action::PersistToken { token: token.clone() },
        AgentState::Done { .. } => Action::Finish,
        _ => Action::Abort,
    }
}

/// The state after an event, and what the agent asks for there.
pub fn step(s: AgentState, e: Event) -> (r: (AgentState, Action))
    ensures
        r.0 == transition(s, e),
        action_fits(r.0, r.1),
{
    let next = match s {
        AgentState::Start { skip_heartbeat } => match e {
            Event::Begin => if skip_heartbeat {
                AgentState::CollectingInventory { record: None, access_token: None }
            } else {
                AgentState::LoadingCredentials
            },
            _ => AgentState::Failed { error: AgentError::UnexpectedEvent },
        },
        AgentState::LoadingCredentials => match e {
            Event::CredentialsLoaded { result } => match result {
                Ok(rec) => if rec.auth0_client_id.is_some() && rec.auth0_client_domain.is_some() {
                    AgentState::RefreshingToken { record: rec }
                } else {
                    let t = rec.auth_token.clone();
                    AgentState::CollectingInventory { record: Some(rec), access_token: Some(t) }
                },
                Err(err) => AgentState::Failed { error: AgentError::Config(err) },
            },
            _ => AgentState::Failed { error: AgentError::UnexpectedEvent },
        },
        AgentState::RefreshingToken { record } => match e {
            Event::TokenReplied { reply } => match get_fresh_auth_token(reply) {
                Ok(t) => AgentState::CollectingInventory {
                    record: Some(record),
                    access_token: Some(t),
                },
                Err(err) => AgentState::Failed { error: AgentError::Auth(err) },
            },
            _ => AgentState::Failed { error: AgentError::UnexpectedEvent },
        },
        AgentState::CollectingInventory { record, access_token } => match e {
            Event::InventoryCollected { result } => match result {
                Ok(h) => match (record, access_token) {
                    (Some(rec), Some(t)) => AgentState::SendingHeartbeat {
                        record: rec,
                        access_token: t,
                        hardware: h,
                    },
                    _ => AgentState::Done { hardware: h },
                },
                Err(err) => AgentState::Failed { error: AgentError::Collect(err) },
            },
            _ => AgentState::Failed { error: AgentError::UnexpectedEvent },
        },
        AgentState::SendingHeartbeat { record, access_token, hardware } => match e {
            Event::HeartbeatReplied { reply } => match heartbeat_result(reply) {
                Ok(t) => AgentState::PersistingToken { hardware, token: t },
                Err(err) => AgentState::Failed { error: AgentError::Heartbeat(err) },
            },
            _ => AgentState::Failed { error: AgentError::UnexpectedEvent },
        },
        AgentState::PersistingToken { hardware, token } => match e {
            Event::TokenPersisted { result } => match result {
                Ok(()) => AgentState::Done { hardware },
                Err(message) => AgentState::Failed { error: AgentError::Persist { message } },
            },
            _ => AgentState::Failed { error: AgentError::UnexpectedEvent },
        },
        AgentState::Done { hardware } => AgentState::Done { hardware },
        AgentState::Failed { error } => AgentState::Failed { error },
    };
    let a = next_action(&next);
    (next, a)
}

} // verus!
