//! Conversation transcript types and tool results.
//!
//! Tool-call arguments are held as JSON text: the compact rendering of the
//! JSON value the model produced (`null` when there are none).

use vstd::prelude::*;

use crate::text::owned;

verus! {

/// The abstract content of a tool call.
pub struct ToolCallV {
    pub id: Seq<char>,
    pub name: Seq<char>,
    pub arguments: Seq<char>,
}

/// The abstract content of an assistant message.
pub struct AssistantV {
    pub content: Seq<char>,
    pub reasoning_content: Option<Seq<char>>,
    pub tool_calls: Seq<ToolCallV>,
}

/// The abstract content of a tool-result message.
pub struct ToolResultMessageV {
    pub tool_call_id: Seq<char>,
    pub tool_name: Seq<char>,
    pub content: Seq<char>,
    pub is_error: bool,
}

/// The abstract content of a transcript message.
pub enum MessageV {
    User(Seq<char>),
    Assistant(AssistantV),
    ToolResult(ToolResultMessageV),
}

/// The abstract content of a tool result.
pub struct ToolResultV {
    pub content: Seq<char>,
    pub is_error: bool,
}

/// One message in the conversation transcript.
#[derive(Debug, Clone, PartialEq)]
pub enum Message {
    /// A prompt or instruction from the user.
    User(UserMessage),
    /// A complete response produced by the model.
    Assistant(AssistantMessage),
    /// The result of executing one tool call.
    ToolResult(ToolResultMessage),
}

/// A message from the user.
#[derive(Debug, Clone, PartialEq, Eq)]
pub struct UserMessage {
    /// The user's prompt text.
    pub content: String,
}

/// A complete assistant message: final-answer text, optional reasoning,
/// and the tool calls requested.
#[derive(Debug, Clone, PartialEq)]
pub struct AssistantMessage {
    pub content: String,
    pub reasoning_content: Option<String>,
    pub tool_calls: Vec<ToolCall>,
}

/// A tool call requested by the model. `arguments` is JSON text.
#[derive(Debug, Clone, PartialEq)]
pub struct ToolCall {
    pub id: String,
    pub name: String,
    pub arguments: String,
}

/// The result of one tool call, stored in the transcript.
#[derive(Debug, Clone, PartialEq, Eq)]
pub struct ToolResultMessage {
    pub tool_call_id: String,
    pub tool_name: String,
    pub content: String,
    pub is_error: bool,
}

/// The outcome of executing one tool.
#[derive(Debug, Clone, PartialEq, Eq)]
pub struct ToolResult {
    /// The tool's output, formatted as text.
    pub content: String,
    /// Whether the tool failed.
    pub is_error: bool,
}

/// A tool advertised to the model: its name, description and the JSON
/// Schema (as JSON text) of its arguments.
#[derive(Debug, Clone, PartialEq, Eq)]
pub struct ToolDefinition {
    pub name: String,
    pub description: String,
    pub parameters: String,
}

/// The view of an optional string.
pub open spec fn opt_str(o: Option<String>) -> Option<Seq<char>> {
    match o {
        Some(s) => Some(s@),
        None => None,
    }
}

impl View for ToolCall {
    type V = ToolCallV;

    open spec fn view(&self) -> ToolCallV {
        ToolCallV { id: self.id@, name: self.name@, arguments: self.arguments@ }
    }
}

/// The views of a sequence of tool calls.
pub open spec fn tool_call_views(calls: Seq<ToolCall>) -> Seq<ToolCallV> {
    calls.map_values(|c: ToolCall| c@)
}

impl View for AssistantMessage {
    type V = AssistantV;

    open spec fn view(&self) -> AssistantV {
        AssistantV {
            content: self.content@,
            reasoning_content: opt_str(self.reasoning_content),
            tool_calls: tool_call_views(self.tool_calls@),
        }
    }
}

impl View for ToolResultMessage {
    type V = ToolResultMessageV;

    open spec fn view(&self) -> ToolResultMessageV {
        ToolResultMessageV {
            tool_call_id: self.tool_call_id@,
            tool_name: self.tool_name@,
            content: self.content@,
            is_error: self.is_error,
        }
    }
}

impl View for Message {
    type V = MessageV;

    open spec fn view(&self) -> MessageV {
        match self {
            Message::User(u) => MessageV::User(u.content@),
            Message::Assistant(a) => MessageV::Assistant(a@),
            Message::ToolResult(t) => MessageV::ToolResult(t@),
        }
    }
}

/// The views of a sequence of messages.
pub open spec fn message_views(ms: Seq<Message>) -> Seq<MessageV> {
    ms.map_values(|m: Message| m@)
}

impl View for ToolResult {
    type V = ToolResultV;

    open spec fn view(&self) -> ToolResultV {
        ToolResultV { content: self.content@, is_error: self.is_error }
    }
}

impl ToolCall {
    /// A tool call with no arguments (used while a call is still streaming).
    pub fn new(id: &str, name: &str) -> (r: Self)
        ensures
            r@ == (ToolCallV { id: id@, name: name@, arguments: "null"@ }),
    {
        ToolCall { id: owned(id), name: owned(name), arguments: owned("null") }
    }

    /// A copy of this call.
    pub fn duplicate(&self) -> (r: Self)
        ensures
            r@ == self@,
    {
        ToolCall { id: self.id.clone(), name: self.name.clone(), arguments: self.arguments.clone() }
    }
}

/// Copy a sequence of tool calls.
pub fn duplicate_calls(calls: &Vec<ToolCall>) -> (r: Vec<ToolCall>)
    ensures
        tool_call_views(r@) == tool_call_views(calls@),
{
    let mut out: Vec<ToolCall> = Vec::new();
    let mut i: usize = 0;
    while i < calls.len()
        invariant
            0 <= i <= calls@.len(),
            out@.len() == i,
            tool_call_views(out@) == tool_call_views(calls@.take(i as int)),
        decreases calls@.len() - i,
    {
        let ghost prev = out@;
        let d = calls[i].duplicate();
        out.push(d);
        proof {
            assert(tool_call_views(prev) == tool_call_views(calls@.take(i as int)));
            assert forall|k: int| 0 <= k < i + 1 implies tool_call_views(out@)[k]
                == tool_call_views(calls@.take(i + 1))[k] by {
                if k < i {
                    assert(out@[k] == prev[k]);
                    assert(tool_call_views(prev)[k] == tool_call_views(calls@.take(i as int))[k]);
                }
            }
            assert(tool_call_views(out@) =~= tool_call_views(calls@.take(i + 1)));
        }
        i += 1;
    }
    assert(calls@.take(calls@.len() as int) =~= calls@);
    out
}

/// Copy an optional string.
pub fn duplicate_opt(o: &Option<String>) -> (r: Option<String>)
    ensures
        opt_str(r) == opt_str(*o),
{
    match o {
        Some(s) => Some(s.clone()),
        None => None,
    }
}

impl AssistantMessage {
    /// A plain assistant message with no reasoning and no tool calls.
    pub fn new(content: &str) -> (r: Self)
        ensures
            r@ == (AssistantV { content: content@, reasoning_content: None, tool_calls: seq![] }),
    {
        let r = AssistantMessage { content: owned(content), reasoning_content: None, tool_calls: Vec::new() };
        assert(tool_call_views(r.tool_calls@) =~= Seq::<ToolCallV>::empty());
        r
    }

    /// An assistant message with reasoning text attached.
    pub fn with_reasoning(content: &str, reasoning: &str) -> (r: Self)
        ensures
            r@ == (AssistantV { content: content@, reasoning_content: Some(reasoning@), tool_calls: seq![] }),
    {
        let r = AssistantMessage {
            content: owned(content),
            reasoning_content: Some(owned(reasoning)),
            tool_calls: Vec::new(),
        };
        assert(tool_call_views(r.tool_calls@) =~= Seq::<ToolCallV>::empty());
        r
    }

    /// Whether this message ends the turn: it has no tool calls to run.
    pub fn is_final(&self) -> (r: bool)
        ensures
            r == (self@.tool_calls.len() == 0),
    {
        self.tool_calls.len() == 0
    }

    /// A copy of this message.
    pub fn duplicate(&self) -> (r: Self)
        ensures
            r@ == self@,
    {
        AssistantMessage {
            content: self.content.clone(),
            reasoning_content: duplicate_opt(&self.reasoning_content),
            tool_calls: duplicate_calls(&self.tool_calls),
        }
    }
}

impl ToolResultMessage {
    /// The transcript message for a call and its execution result.
    pub fn from_call(call: &ToolCall, result: ToolResult) -> (r: Self)
        ensures
            r@ == (ToolResultMessageV {
                tool_call_id: call@.id,
                tool_name: call@.name,
                content: result@.content,
                is_error: result@.is_error,
            }),
    {
        ToolResultMessage {
            tool_call_id: call.id.clone(),
            tool_name: call.name.clone(),
            content: result.content,
            is_error: result.is_error,
        }
    }
}

impl ToolResult {
    /// A successful result.
    pub fn ok(content: &str) -> (r: Self)
        ensures
            r@ == (ToolResultV { content: content@, is_error: false }),
    {
        ToolResult { content: owned(content), is_error: false }
    }

    /// A failed result.
    pub fn error(content: &str) -> (r: Self)
        ensures
            r@ == (ToolResultV { content: content@, is_error: true }),
    {
        ToolResult { content: owned(content), is_error: true }
    }

    /// A copy of this result.
    pub fn duplicate(&self) -> (r: Self)
        ensures
            r@ == self@,
    {
        ToolResult { content: self.content.clone(), is_error: self.is_error }
    }
}

impl ToolDefinition {
    /// A tool definition from its parts.
    pub fn new(name: &str, description: &str, parameters: &str) -> (r: Self)
        ensures
            r.name@ == name@,
            r.description@ == description@,
            r.parameters@ == parameters@,
    {
        ToolDefinition { name: owned(name), description: owned(description), parameters: owned(parameters) }
    }
}

} // verus!
