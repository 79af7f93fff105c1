use client_hw_info::agent::{step, Action, AgentError, AgentState, Event};
use client_hw_info::auth::{AuthError, RefreshTokenRequest, TokenReply};
use client_hw_info::config::{lookup_configuration, ConfigError, CredentialRecord, StoreFields};
use client_hw_info::hardware::{CollectError, NodeHardware};
use client_hw_info::heartbeat::{HeartbeatError, HeartbeatReply};

fn record(client: bool) -> CredentialRecord {
    CredentialRecord {
        node_id: "node-1".to_string(),
        api_url: "https://api.example".to_string(),
        auth_token: "token-0".to_string(),
        auth0_client_id: if client { Some("cid".to_string()) } else { None },
        auth0_client_domain: if client { Some("login.example".to_string()) } else { None },
    }
}

fn hardware() -> NodeHardware {
    NodeHardware {
        gpu_count: 1,
        gpu_vendor: "NVIDIA".to_string(),
        gpu_type: "A100".to_string(),
        gpu_memory: 80,
        cpu_cores: 16,
        memory_gb: 64,
        storage_gb: 512,
    }
}

fn until_heartbeat() -> AgentState {
    let (s, a) = step(AgentState::Start { skip_heartbeat: false }, Event::Begin);
    assert_eq!(a, Action::LoadCredentials);
    let (s, a) = step(s, Event::CredentialsLoaded { result: Ok(record(false)) });
    assert_eq!(a, Action::CollectInventory);
    let (s, a) = step(s, Event::InventoryCollected { result: Ok(hardware()) });
    assert_eq!(
        a,
        Action::SendHeartbeat {
            endpoint: "https://api.example/node/node-1".to_string(),
            access_token: "token-0".to_string()
        }
    );
    s
}

#[test]
fn full_run_rotates_the_token() {
    let s = until_heartbeat();
    let (s, a) = step(
        s,
        Event::HeartbeatReplied {
            reply: HeartbeatReply::Accepted {
                next_access_token: Ok("token-1".to_string()),
            },
        },
    );
    assert_eq!(
        a,
        Action::PersistToken {
            token: "token-1".to_string()
        }
    );
    let (s, a) = step(s, Event::TokenPersisted { result: Ok(()) });
    assert_eq!(a, Action::Finish);
    assert_eq!(s, AgentState::Done { hardware: hardware() });
}

#[test]
fn skipping_the_heartbeat_only_collects() {
    let (s, a) = step(AgentState::Start { skip_heartbeat: true }, Event::Begin);
    assert_eq!(a, Action::CollectInventory);
    let (s, a) = step(s, Event::InventoryCollected { result: Ok(hardware()) });
    assert_eq!(a, Action::Finish);
    assert_eq!(s, AgentState::Done { hardware: hardware() });
}

#[test]
fn refresh_token_is_exchanged_first() {
    let (s, _) = step(AgentState::Start { skip_heartbeat: false }, Event::Begin);
    let (s, a) = step(s, Event::CredentialsLoaded { result: Ok(record(true)) });
    assert_eq!(
        a,
        Action::RequestToken {
            endpoint: "https://login.example/oauth/token".to_string(),
            request: RefreshTokenRequest {
                grant_type: "refresh_token".to_string(),
                client_id: "cid".to_string(),
                refresh_token: "token-0".to_string(),
                scope: "openid offline_access nodeagent".to_string(),
            }
        }
    );
    let (s, a) = step(
        s,
        Event::TokenReplied {
            reply: TokenReply::Accepted {
                access_token: Ok("fresh".to_string()),
            },
        },
    );
    assert_eq!(a, Action::CollectInventory);
    let (_, a) = step(s, Event::InventoryCollected { result: Ok(hardware()) });
    assert_eq!(
        a,
        Action::SendHeartbeat {
            endpoint: "https://api.example/node/node-1".to_string(),
            access_token: "fresh".to_string()
        }
    );
}

#[test]
fn rejected_heartbeat_leaves_store_untouched() {
    let s = until_heartbeat();
    let (s, a) = step(
        s,
        Event::HeartbeatReplied {
            reply: HeartbeatReply::Refused { status: 401 },
        },
    );
    assert_eq!(a, Action::Abort);
    assert_eq!(
        s,
        AgentState::Failed {
            error: AgentError::Heartbeat(HeartbeatError::Rejected { status: 401 })
        }
    );
}

#[test]
fn lost_rotation_fails_without_crash() {
    let store = "NODE_ID=node-1\nAPI_URL=https://api.example\nAUTH_TOKEN=token-0\n";
    let loaded = lookup_configuration(store, &StoreFields::default(), &StoreFields::default())
        .unwrap()
        .record;
    assert_eq!(loaded, record(false));
    let s = until_heartbeat();
    let (s, a) = step(
        s,
        Event::HeartbeatReplied {
            reply: HeartbeatReply::Accepted {
                next_access_token: Ok("token-1".to_string()),
            },
        },
    );
    assert_eq!(
        a,
        Action::PersistToken {
            token: "token-1".to_string()
        }
    );
    let (s, a) = step(
        s,
        Event::TokenPersisted {
            result: Err("No space left on device".to_string()),
        },
    );
    assert_eq!(a, Action::Abort);
    assert_eq!(
        s,
        AgentState::Failed {
            error: AgentError::Persist {
                message: "No space left on device".to_string()
            }
        }
    );
    let next_run = lookup_configuration(store, &StoreFields::default(), &StoreFields::default())
        .unwrap()
        .record;
    assert_eq!(next_run.auth_token, "token-0");
}

#[test]
fn failures_end_the_run() {
    let (s, _) = step(AgentState::Start { skip_heartbeat: false }, Event::Begin);
    let err = ConfigError::MissingField {
        key: "NODE_ID".to_string(),
    };
    let (s, a) = step(s, Event::CredentialsLoaded { result: Err(err.clone()) });
    assert_eq!(a, Action::Abort);
    assert_eq!(s, AgentState::Failed { error: AgentError::Config(err) });
    let (s2, a2) = step(s, Event::Begin);
    assert_eq!(a2, Action::Abort);
    assert!(matches!(s2, AgentState::Failed { .. }));

    let (s, _) = step(AgentState::Start { skip_heartbeat: false }, Event::Begin);
    let (s, _) = step(s, Event::CredentialsLoaded { result: Ok(record(true)) });
    let (s, a) = step(
        s,
        Event::TokenReplied {
            reply: TokenReply::Refused {
                status: 403,
                body: "denied".to_string(),
            },
        },
    );
    assert_eq!(a, Action::Abort);
    assert_eq!(
        s,
        AgentState::Failed {
            error: AgentError::Auth(AuthError::ServerRejected {
                status: 403,
                body: "denied".to_string()
            })
        }
    );

    let (s, _) = step(AgentState::Start { skip_heartbeat: true }, Event::Begin);
    let bad = CollectError::InvalidVendorId {
        text: "0xzz".to_string(),
    };
    let (s, a) = step(s, Event::InventoryCollected { result: Err(bad.clone()) });
    assert_eq!(a, Action::Abort);
    assert_eq!(s, AgentState::Failed { error: AgentError::Collect(bad) });
}

#[test]
fn out_of_order_events_fail() {
    let (s, a) = step(
        AgentState::Start { skip_heartbeat: false },
        Event::TokenPersisted { result: Ok(()) },
    );
    assert_eq!(a, Action::Abort);
    assert_eq!(s, AgentState::Failed { error: AgentError::UnexpectedEvent });
}
