use vstd::prelude::*;

use crate::text::push_str;

verus! {

/// What came back from the heartbeat endpoint.
#[derive(Debug, PartialEq, Eq)]
pub enum HeartbeatReply {
    /// The request could not be sent or answered.
    Unreachable { message: String },
    /// A success status, and the next access token of the body, or why it did
    /// not decode.
    Accepted { next_access_token: Result<String, String> },
    /// Another status.
    Refused { status: u16 },
}

/// Why a heartbeat brought no next access token.
#[derive(Debug, Clone, PartialEq, Eq)]
pub enum HeartbeatError {
    Rejected { status: u16 },
    Transport { message: String },
    Decode { message: String },
}

/// `{api_url}/node/{node_id}`.
pub open spec fn heartbeat_endpoint_text(api_url: Seq<char>, node_id: Seq<char>) -> Seq<char> {
    api_url + "/node/"@ + node_id
}

/// The URL that a node's heartbeat updates.
pub fn heartbeat_endpoint(api_url: &str, node_id: &str) -> (r: String)
    ensures
        r@ == heartbeat_endpoint_text(api_url@, node_id@),
{
    let mut r = String::new();
    push_str(&mut r, api_url);
    push_str(&mut r, "/node/");
    push_str(&mut r, node_id);
    assert(r@ =~= heartbeat_endpoint_text(api_url@, node_id@));
    r
}

/// The next access token of a reply from the heartbeat endpoint, or why there
/// is none.
pub open spec fn heartbeat_outcome(reply: HeartbeatReply) -> Result<String, HeartbeatError> {
    match reply {
        HeartbeatReply::Unreachable { message } => Err(HeartbeatError::Transport { message }),
        HeartbeatReply::Accepted { next_access_token } => match next_access_token {
            Ok(t) => Ok(t),
            Err(message) => Err(HeartbeatError::Decode { message }),
        },
        HeartbeatReply::Refused { status } => Err(HeartbeatError::Rejected { status }),
    }
}

/// The next access token of a reply from the heartbeat endpoint: a transport
/// failure, a body that did not decode, and any other status each fail in
/// their own way.
pub fn heartbeat_result(reply: HeartbeatReply) -> (r: Result<String, HeartbeatError>)
    ensures
        r == heartbeat_outcome(reply),
{
    match reply {
        HeartbeatReply::Unreachable { message } => Err(HeartbeatError::Transport { message }),
        HeartbeatReply::Accepted { next_access_token } => match next_access_token {
            Ok(t) => Ok(t),
            Err(message) => Err(HeartbeatError::Decode { message }),
        },
        HeartbeatReply::Refused { status } => Err(HeartbeatError::Rejected { status }),
    }
}

} // verus!
