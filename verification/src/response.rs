//! DeepSeek response shapes: complete responses, streaming chunks, usage
//! and API error bodies. Tool-call arguments and error parameters are JSON
//! text.

use vstd::prelude::*;

verus! {

/// A complete (non-streaming) chat completion response.
#[derive(Debug, Clone)]
pub struct ChatResponse {
    pub id: String,
    pub object: String,
    pub created: u64,
    pub model: String,
    pub choices: Vec<ChatChoice>,
    pub usage: Option<DeepSeekUsage>,
}

/// One choice of a complete response.
#[derive(Debug, Clone)]
pub struct ChatChoice {
    pub index: usize,
    pub message: ResponseMessage,
    pub finish_reason: Option<String>,
}

/// The message of a complete response.
#[derive(Debug, Clone)]
pub struct ResponseMessage {
    pub role: Option<String>,
    /// `None` when the message only carries tool calls.
    pub content: Option<String>,
    /// The assistant's reasoning text.
    pub reasoning_content: Option<String>,
    pub tool_calls: Vec<ResponseToolCall>,
}

/// A tool call in a complete response.
#[derive(Debug, Clone)]
pub struct ResponseToolCall {
    pub id: String,
    pub kind: Option<String>,
    pub function: ResponseFunction,
}

/// The function part of a tool call; `arguments` is JSON-encoded text.
#[derive(Debug, Clone)]
pub struct ResponseFunction {
    pub name: String,
    pub arguments: String,
}

/// One SSE chunk of a streaming response.
#[derive(Debug, Clone)]
pub struct StreamChunk {
    pub id: String,
    pub object: Option<String>,
    pub created: Option<u64>,
    pub model: Option<String>,
    pub choices: Vec<StreamChoice>,
    /// Usage usually arrives on the final chunk(s), with no choices.
    pub usage: Option<DeepSeekUsage>,
}

/// One choice of a streaming chunk.
#[derive(Debug, Clone)]
pub struct StreamChoice {
    pub index: usize,
    pub delta: Delta,
    /// `None` while streaming.
    pub finish_reason: Option<String>,
}

/// The piece of the message that arrived in one chunk.
#[derive(Debug, Clone)]
pub struct Delta {
    pub role: Option<String>,
    pub content: Option<String>,
    pub reasoning_content: Option<String>,
    pub tool_calls: Vec<DeltaToolCall>,
}

/// A fragment of a tool call inside a delta.
#[derive(Debug, Clone)]
pub struct DeltaToolCall {
    /// Which tool call (within this message) this fragment belongs to.
    pub index: usize,
    pub id: Option<String>,
    pub kind: Option<String>,
    pub function: Option<DeltaFunction>,
}

/// The function part of a tool-call fragment.
#[derive(Debug, Clone)]
pub struct DeltaFunction {
    pub name: Option<String>,
    pub arguments: Option<String>,
}

/// Token usage reported by DeepSeek.
#[derive(Debug, Clone, Copy, PartialEq, Eq)]
pub struct DeepSeekUsage {
    pub prompt_tokens: u64,
    pub completion_tokens: u64,
    pub total_tokens: u64,
    pub prompt_cache_hit_tokens: Option<u64>,
    pub prompt_cache_miss_tokens: Option<u64>,
}

/// The JSON error body returned for HTTP 4xx/5xx responses.
#[derive(Debug, Clone)]
pub struct ApiErrorBody {
    pub error: ApiErrorDetail,
}

/// The detail of an API error; `param` is JSON text.
#[derive(Debug, Clone)]
pub struct ApiErrorDetail {
    pub message: String,
    pub kind: Option<String>,
    pub code: Option<String>,
    pub param: Option<String>,
}

} // verus!
