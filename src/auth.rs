use vstd::prelude::*;

use crate::text::{owned, push_str};

verus! {

/// Whether an HTTP status is a success (2xx).
pub open spec fn success_status(status: u16) -> bool {
    200 <= status <= 299
}

/// Whether an HTTP status is a success (2xx).
pub fn is_success(status: u16) -> (r: bool)
    ensures
        r == success_status(status),
{
    200 <= status && status <= 299
}

/// The body of a token exchange request.
#[derive(Debug, Clone, PartialEq, Eq)]
pub struct RefreshTokenRequest {
    pub grant_type: String,
    pub client_id: String,
    pub refresh_token: String,
    pub scope: String,
}

/// What came back from the token endpoint.
#[derive(Debug, PartialEq, Eq)]
pub enum TokenReply {
    /// The request could not be sent or answered.
    Unreachable { message: String },
    /// A success status, and the access token of the body, or why it did not decode.
    Accepted { access_token: Result<String, String> },
    /// Another status, and the body's text.
    Refused { status: u16, body: String },
}

/// Why no access token was obtained.
#[derive(Debug, Clone, PartialEq, Eq)]
pub enum AuthError {
    ServerRejected { status: u16, body: String },
    Transport { message: String },
    Decode { message: String },
}

/// `https://{domain}/oauth/token`.
pub open spec fn token_endpoint_text(client_domain: Seq<char>) -> Seq<char> {
    "https://"@ + client_domain + "/oauth/token"@
}

/// The URL of the token endpoint of a client domain.
pub fn token_endpoint(client_domain: &str) -> (r: String)
    ensures
        r@ == token_endpoint_text(client_domain@),
{
    let mut r = owned("https://");
    push_str(&mut r, client_domain);
    push_str(&mut r, "/oauth/token");
    r
}

/// The request that exchanges a refresh token for an access token.
pub fn refresh_request(refresh_token: &str, client_id: &str) -> (r: RefreshTokenRequest)
    ensures
        r.grant_type@ == "refresh_token"@,
        r.client_id@ == client_id@,
        r.refresh_token@ == refresh_token@,
        r.scope@ == "openid offline_access nodeagent"@,
{
    RefreshTokenRequest {
        grant_type: owned("refresh_token"),
        client_id: owned(client_id),
        refresh_token: owned(refresh_token),
        scope: owned("openid offline_access nodeagent"),
    }
}

/// The access token of a reply from the token endpoint, or why there is none.
pub open spec fn token_outcome(reply: TokenReply) -> Result<String, AuthError> {
    match reply {
        TokenReply::Unreachable { message } => Err(AuthError::Transport { message }),
        TokenReply::Accepted { access_token } => match access_token {
            Ok(t) => Ok(t),
            Err(message) => Err(AuthError::Decode { message }),
        },
        TokenReply::Refused { status, body } => Err(AuthError::ServerRejected { status, body }),
    }
}

/// The access token of a reply from the token endpoint: a transport failure, a
/// body that did not decode, and any other status each fail in their own way.
pub fn get_fresh_auth_token(reply: TokenReply) -> (r: Result<String, AuthError>)
    ensures
        r == token_outcome(reply),
{
    match reply {
        TokenReply::Unreachable { message } => Err(AuthError::Transport { message }),
        TokenReply::Accepted { access_token } => match access_token {
            Ok(t) => Ok(t),
            Err(message) => Err(AuthError::Decode { message }),
        },
        TokenReply::Refused { status, body } => Err(AuthError::ServerRejected { status, body }),
    }
}

} // verus!
