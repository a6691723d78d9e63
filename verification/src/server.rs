//! What the HTTP interface exchanges: chat requests, and the list of models.
use vstd::prelude::*;

use crate::json::Json;

verus! {

/// A chat request.
pub struct ChatRequest {
    pub model: String,
    pub messages: Vec<ChatMessageDto>,
    pub stream: bool,
    pub tools: Option<Json>,
    pub max_tokens: Option<u32>,
}

/// A message of a conversation.
pub struct ChatMessageDto {
    pub role: String,
    pub content: Option<Json>,
    pub tool_call_id: Option<String>,
    pub name: Option<String>,
}

/// The list of models.
pub struct ModelsResponse {
    pub object: &'static str,
    pub data: Vec<ModelCard>,
}

/// A model of the list.
pub struct ModelCard {
    pub id: String,
    pub object: &'static str,
    pub owned_by: &'static str,
}

} // verus!
