use client_hw_info::auth::{
    get_fresh_auth_token, is_success, refresh_request, token_endpoint, AuthError, TokenReply,
};
use client_hw_info::heartbeat::{heartbeat_endpoint, heartbeat_result, HeartbeatError, HeartbeatReply};

#[test]
fn success_statuses() {
    assert!(is_success(200));
    assert!(is_success(204));
    assert!(is_success(299));
    assert!(!is_success(199));
    assert!(!is_success(300));
    assert!(!is_success(401));
}

#[test]
fn token_endpoint_of_domain() {
    assert_eq!(token_endpoint("login.example"), "https://login.example/oauth/token");
    let r = refresh_request("refresh-1", "client-1");
    assert_eq!(r.grant_type, "refresh_token");
    assert_eq!(r.client_id, "client-1");
    assert_eq!(r.refresh_token, "refresh-1");
    assert_eq!(r.scope, "openid offline_access nodeagent");
}

#[test]
fn token_replies() {
    assert_eq!(
        get_fresh_auth_token(TokenReply::Accepted {
            access_token: Ok("a".to_string())
        }),
        Ok("a".to_string())
    );
    assert_eq!(
        get_fresh_auth_token(TokenReply::Accepted {
            access_token: Err("missing field".to_string())
        }),
        Err(AuthError::Decode {
            message: "missing field".to_string()
        })
    );
    assert_eq!(
        get_fresh_auth_token(TokenReply::Refused {
            status: 401,
            body: "no".to_string()
        }),
        Err(AuthError::ServerRejected {
            status: 401,
            body: "no".to_string()
        })
    );
    assert_eq!(
        get_fresh_auth_token(TokenReply::Unreachable {
            message: "dns".to_string()
        }),
        Err(AuthError::Transport {
            message: "dns".to_string()
        })
    );
}

#[test]
fn heartbeat_endpoint_of_node() {
    assert_eq!(
        heartbeat_endpoint("https://api.example", "node-1"),
        "https://api.example/node/node-1"
    );
}

#[test]
fn heartbeat_replies() {
    assert_eq!(
        heartbeat_result(HeartbeatReply::Accepted {
            next_access_token: Ok("n".to_string())
        }),
        Ok("n".to_string())
    );
    assert_eq!(
        heartbeat_result(HeartbeatReply::Refused { status: 401 }),
        Err(HeartbeatError::Rejected { status: 401 })
    );
    assert_eq!(
        heartbeat_result(HeartbeatReply::Accepted {
            next_access_token: Err("bad json".to_string())
        }),
        Err(HeartbeatError::Decode {
            message: "bad json".to_string()
        })
    );
    assert_eq!(
        heartbeat_result(HeartbeatReply::Unreachable {
            message: "refused".to_string()
        }),
        Err(HeartbeatError::Transport {
            message: "refused".to_string()
        })
    );
}
