//! Typed events: streaming model output and the agent's events for
//! frontends.

use vstd::prelude::*;

use crate::message::{AssistantMessage, AssistantV, ToolCall, ToolCallV, ToolResult, ToolResultV};

verus! {

/// Token usage reported by the model for one response.
#[derive(Debug, Clone, Copy, PartialEq, Eq)]
pub struct Usage {
    pub prompt_tokens: u64,
    pub completion_tokens: u64,
    pub total_tokens: u64,
}

impl Usage {
    /// Usage with the total derived from prompt + completion.
    pub fn new(prompt_tokens: u64, completion_tokens: u64) -> (r: Self)
        requires
            prompt_tokens + completion_tokens <= u64::MAX,
        ensures
            r == (Usage {
                prompt_tokens,
                completion_tokens,
                total_tokens: (prompt_tokens + completion_tokens) as u64,
            }),
    {
        Usage { prompt_tokens, completion_tokens, total_tokens: prompt_tokens + completion_tokens }
    }
}

impl Default for Usage {
    fn default() -> (r: Self)
        ensures
            r == (Usage { prompt_tokens: 0, completion_tokens: 0, total_tokens: 0 }),
    {
        Usage { prompt_tokens: 0, completion_tokens: 0, total_tokens: 0 }
    }
}

/// The abstract content of a model event.
pub enum ModelEventV {
    TextDelta(Seq<char>),
    ReasoningDelta(Seq<char>),
    ToolCallStarted { index: usize, id: Seq<char>, name: Seq<char> },
    ToolCallArgumentsDelta { index: usize, delta: Seq<char> },
    Usage(Usage),
    Finished,
}

/// A single streaming event from the model.
#[derive(Debug, Clone, PartialEq)]
pub enum ModelEvent {
    /// A chunk of final-answer text.
    TextDelta(String),
    /// A chunk of reasoning text.
    ReasoningDelta(String),
    /// The start of a tool call, identified by its index in the message.
    ToolCallStarted { index: usize, id: String, name: String },
    /// A fragment of a tool call's JSON arguments.
    ToolCallArgumentsDelta { index: usize, delta: String },
    /// Token usage reported by the model for this response.
    Usage(Usage),
    /// The model finished streaming this response.
    Finished,
}

impl View for ModelEvent {
    type V = ModelEventV;

    open spec fn view(&self) -> ModelEventV {
        match self {
            ModelEvent::TextDelta(d) => ModelEventV::TextDelta(d@),
            ModelEvent::ReasoningDelta(d) => ModelEventV::ReasoningDelta(d@),
            ModelEvent::ToolCallStarted { index, id, name } =>
                ModelEventV::ToolCallStarted { index: *index, id: id@, name: name@ },
            ModelEvent::ToolCallArgumentsDelta { index, delta } =>
                ModelEventV::ToolCallArgumentsDelta { index: *index, delta: delta@ },
            ModelEvent::Usage(u) => ModelEventV::Usage(*u),
            ModelEvent::Finished => ModelEventV::Finished,
        }
    }
}

/// The views of a sequence of model events.
pub open spec fn model_event_views(es: Seq<ModelEvent>) -> Seq<ModelEventV> {
    es.map_values(|e: ModelEvent| e@)
}

/// The abstract content of an agent event.
pub enum AgentEventV {
    TurnStarted,
    TextDelta(Seq<char>),
    ReasoningDelta(Seq<char>),
    ToolCallStarted(ToolCallV),
    ToolCallFinished { call_id: Seq<char>, result: ToolResultV },
    AssistantMessageCompleted(AssistantV),
    TurnCompleted,
    Error(Seq<char>),
}

/// The contract between the agent harness and any frontend.
#[derive(Debug, Clone, PartialEq)]
pub enum AgentEvent {
    /// The agent started a new model turn.
    TurnStarted,
    /// A chunk of final-answer text from the model.
    TextDelta { delta: String },
    /// A chunk of reasoning text from the model.
    ReasoningDelta { delta: String },
    /// The model requested a tool call.
    ToolCallStarted { call: ToolCall },
    /// A tool call finished executing.
    ToolCallFinished { call_id: String, result: ToolResult },
    /// A complete assistant message was assembled and stored.
    AssistantMessageCompleted { message: AssistantMessage },
    /// The agent produced its final response and the turn is over.
    TurnCompleted,
    /// An unrecoverable error occurred; the turn is over.
    Error { message: String },
}

impl View for AgentEvent {
    type V = AgentEventV;

    open spec fn view(&self) -> AgentEventV {
        match self {
            AgentEvent::TurnStarted => AgentEventV::TurnStarted,
            AgentEvent::TextDelta { delta } => AgentEventV::TextDelta(delta@),
            AgentEvent::ReasoningDelta { delta } => AgentEventV::ReasoningDelta(delta@),
            AgentEvent::ToolCallStarted { call } => AgentEventV::ToolCallStarted(call@),
            AgentEvent::ToolCallFinished { call_id, result } =>
                AgentEventV::ToolCallFinished { call_id: call_id@, result: result@ },
            AgentEvent::AssistantMessageCompleted { message } =>
                AgentEventV::AssistantMessageCompleted(message@),
            AgentEvent::TurnCompleted => AgentEventV::TurnCompleted,
            AgentEvent::Error { message } => AgentEventV::Error(message@),
        }
    }
}

} // verus!
