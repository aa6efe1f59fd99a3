//! Messages of the browser-facing WebSocket API, and which of them the node
//! serves.
use vstd::prelude::*;

verus! {

pub enum ClientMessage {
    Navigate { tab_id: u64, url: String },
    Publish { tab_id: u64, name: String, content: Vec<u8>, mime_type: String },
    Resolve { request_id: String, name: String },
    RotateIdentity { tab_id: u64 },
    GetTopology,
    Search { query: String, tab_id: u64 },
    Ping,
}

/// What the server does with a client message: run a search, or answer
/// with an error code and message.
pub enum MessageRoute {
    Search { query: String, tab_id: u64 },
    Unsupported { code: String, message: String },
}

/// Searches are served; every other request is answered `NOT_IMPLEMENTED`.
pub fn route_client_message(msg: ClientMessage) -> (route: MessageRoute)
    ensures
        msg matches ClientMessage::Search { query, tab_id } ==> (route matches MessageRoute::Search { query: q, tab_id: t }
            && q@ == query@ && t == tab_id),
        !(msg is Search) ==> (route matches MessageRoute::Unsupported { code, message }
            && code@ == "NOT_IMPLEMENTED"@ && message@ == "Feature not yet available via WebSocket"@),
{
    match msg {
        ClientMessage::Search { query, tab_id } => MessageRoute::Search { query, tab_id },
        _ => MessageRoute::Unsupported {
            code: String::from_str("NOT_IMPLEMENTED"),
            message: String::from_str("Feature not yet available via WebSocket"),
        },
    }
}

} // verus!
