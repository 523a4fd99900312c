//! Message shapes of a chat-completion service: what is sent, and what
//! comes back.
use vstd::prelude::*;

verus! {

/// One message of a conversation.
#[derive(Clone, Debug, PartialEq, Eq)]
pub struct Message {
    pub role: String,
    pub content: String,
}

/// A message as the service returns it.
#[derive(Debug, PartialEq, Eq)]
pub struct APIMessage {
    pub role: String,
    pub content: String,
}

/// One of the answers the service offers.
#[derive(Debug, PartialEq, Eq)]
pub struct APIChoice {
    pub message: APIMessage,
}

/// The service's reply: the answers it offers.
#[derive(Debug, PartialEq, Eq)]
pub struct APIResponse {
    pub choices: Vec<APIChoice>,
}

} // verus!
