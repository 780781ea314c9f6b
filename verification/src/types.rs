//! The parts of a messages request that caching and normalisation read.
use crate::json::Value;
use vstd::prelude::*;

verus! {

/// A `cache_control` marker.
#[derive(Debug)]
pub struct CacheControl {
    pub cache_type: String,
    pub ttl: Option<String>,
}

/// One block of the system prompt.
#[derive(Debug)]
pub struct SystemMessage {
    pub text: String,
    pub cache_control: Option<CacheControl>,
}

/// A tool that the model may call.
#[derive(Debug)]
pub struct Tool {
    pub name: String,
    pub description: String,
    pub input_schema: Value,
    pub cache_control: Option<CacheControl>,
}

/// One message of the conversation.
#[derive(Debug)]
pub struct Message {
    pub role: String,
    pub content: Value,
    pub cache_control: Option<CacheControl>,
}

/// A messages request.
#[derive(Debug)]
pub struct MessagesRequest {
    pub model: String,
    pub messages: Vec<Message>,
    pub system: Option<Vec<SystemMessage>>,
    pub tools: Option<Vec<Tool>>,
}

} // verus!
