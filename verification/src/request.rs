//! DeepSeek request types and conversation serialization: how transcript
//! messages become wire messages.

use vstd::prelude::*;

use crate::message::{
    AssistantMessage, AssistantV, Message, MessageV, ToolCall, ToolCallV, ToolDefinition, ToolResultMessage,
    message_views, opt_str, duplicate_opt,
};
use crate::text::owned;

verus! {

broadcast use vstd::seq_lib::group_seq_properties;

/// Whether the model should think (produce reasoning) or not.
#[derive(Debug, Clone, Copy, PartialEq, Eq)]
pub enum ThinkingMode {
    Enabled,
    Disabled,
}

/// The `thinking` parameter: `{"type": "enabled"}` or `{"type": "disabled"}`.
#[derive(Debug, Clone, Copy, PartialEq, Eq)]
pub struct Thinking {
    pub mode: ThinkingMode,
}

impl Thinking {
    /// Request thinking mode explicitly.
    pub fn enabled() -> (r: Self)
        ensures
            r.mode == ThinkingMode::Enabled,
    {
        Thinking { mode: ThinkingMode::Enabled }
    }

    /// Disable thinking mode explicitly.
    pub fn disabled() -> (r: Self)
        ensures
            r.mode == ThinkingMode::Disabled,
    {
        Thinking { mode: ThinkingMode::Disabled }
    }
}

/// The role of a wire message.
#[derive(Debug, Clone, Copy, PartialEq, Eq)]
pub enum Role {
    System,
    User,
    Assistant,
    Tool,
}

/// The `function` part of a wire tool call: `arguments` is the JSON text of
/// the arguments, carried as a string on the wire.
#[derive(Debug, Clone)]
pub struct WireFunctionCall {
    pub name: String,
    pub arguments: String,
}

/// A tool call in an assistant wire message (type `function`).
#[derive(Debug, Clone)]
pub struct WireToolCall {
    pub id: String,
    pub function: WireFunctionCall,
}

/// The abstract content of a wire tool call.
pub struct WireToolCallV {
    pub id: Seq<char>,
    pub name: Seq<char>,
    pub arguments: Seq<char>,
}

impl View for WireToolCall {
    type V = WireToolCallV;

    open spec fn view(&self) -> WireToolCallV {
        WireToolCallV { id: self.id@, name: self.function.name@, arguments: self.function.arguments@ }
    }
}

/// The views of wire tool calls.
pub open spec fn wire_call_views(v: Seq<WireToolCall>) -> Seq<WireToolCallV> {
    v.map_values(|c: WireToolCall| c@)
}

/// The wire form of a transcript tool call.
pub open spec fn wire_call_of(c: ToolCallV) -> WireToolCallV {
    WireToolCallV { id: c.id, name: c.name, arguments: c.arguments }
}

impl WireToolCall {
    /// The wire form of a transcript tool call.
    pub fn from_core(call: &ToolCall) -> (r: Self)
        ensures
            r@ == wire_call_of(call@),
    {
        WireToolCall {
            id: call.id.clone(),
            function: WireFunctionCall { name: call.name.clone(), arguments: call.arguments.clone() },
        }
    }
}

/// A message in the wire `messages` array.
#[derive(Debug, Clone)]
pub struct WireMessage {
    pub role: Role,
    pub content: Option<String>,
    pub reasoning_content: Option<String>,
    pub tool_calls: Vec<WireToolCall>,
    pub tool_call_id: Option<String>,
}

/// The abstract content of a wire message.
pub struct WireMessageV {
    pub role: Role,
    pub content: Option<Seq<char>>,
    pub reasoning_content: Option<Seq<char>>,
    pub tool_calls: Seq<WireToolCallV>,
    pub tool_call_id: Option<Seq<char>>,
}

impl View for WireMessage {
    type V = WireMessageV;

    open spec fn view(&self) -> WireMessageV {
        WireMessageV {
            role: self.role,
            content: opt_str(self.content),
            reasoning_content: opt_str(self.reasoning_content),
            tool_calls: wire_call_views(self.tool_calls@),
            tool_call_id: opt_str(self.tool_call_id),
        }
    }
}

/// The views of wire messages.
pub open spec fn wire_message_views(v: Seq<WireMessage>) -> Seq<WireMessageV> {
    v.map_values(|m: WireMessage| m@)
}

/// A plain wire message with the given role and content.
pub open spec fn plain_wire(role: Role, content: Seq<char>) -> WireMessageV {
    WireMessageV { role, content: Some(content), reasoning_content: None, tool_calls: seq![], tool_call_id: None }
}

/// The wire message of one transcript message. Reasoning is carried
/// through even when the message has tool calls.
pub open spec fn wire_of(m: MessageV) -> WireMessageV {
    match m {
        MessageV::User(c) => plain_wire(Role::User, c),
        MessageV::Assistant(a) => WireMessageV {
            role: Role::Assistant,
            content: Some(a.content),
            reasoning_content: a.reasoning_content,
            tool_calls: a.tool_calls.map_values(|c: ToolCallV| wire_call_of(c)),
            tool_call_id: None,
        },
        MessageV::ToolResult(t) => WireMessageV {
            role: Role::Tool,
            content: Some(t.content),
            reasoning_content: None,
            tool_calls: seq![],
            tool_call_id: Some(t.tool_call_id),
        },
    }
}

impl WireMessage {
    /// The system message.
    pub fn system(content: &str) -> (r: Self)
        ensures
            r@ == plain_wire(Role::System, content@),
    {
        let r = WireMessage {
            role: Role::System,
            content: Some(owned(content)),
            reasoning_content: None,
            tool_calls: Vec::new(),
            tool_call_id: None,
        };
        assert(wire_call_views(r.tool_calls@) =~= Seq::<WireToolCallV>::empty());
        r
    }

    /// A user message.
    pub fn user(content: &str) -> (r: Self)
        ensures
            r@ == plain_wire(Role::User, content@),
    {
        let r = WireMessage {
            role: Role::User,
            content: Some(owned(content)),
            reasoning_content: None,
            tool_calls: Vec::new(),
            tool_call_id: None,
        };
        assert(wire_call_views(r.tool_calls@) =~= Seq::<WireToolCallV>::empty());
        r
    }

    /// An assistant message, with its reasoning and tool calls.
    pub fn assistant(message: &AssistantMessage) -> (r: Self)
        ensures
            r@ == wire_of(MessageV::Assistant(message@)),
    {
        let mut tool_calls: Vec<WireToolCall> = Vec::new();
        let mut i: usize = 0;
        while i < message.tool_calls.len()
            invariant
                0 <= i <= message.tool_calls@.len(),
                wire_call_views(tool_calls@) == message@.tool_calls.take(i as int).map_values(|c: ToolCallV| wire_call_of(c)),
            decreases message.tool_calls@.len() - i,
        {
            let ghost prev = tool_calls@;
            let w = WireToolCall::from_core(&message.tool_calls[i]);
            tool_calls.push(w);
            proof {
                assert(message@.tool_calls[i as int] == message.tool_calls@[i as int]@);
                assert(wire_call_views(tool_calls@) =~= wire_call_views(prev).push(w@));
                assert(message@.tool_calls.take(i + 1) =~= message@.tool_calls.take(i as int).push(message@.tool_calls[i as int]));
                assert(wire_call_views(tool_calls@) =~= message@.tool_calls.take(i + 1).map_values(|c: ToolCallV| wire_call_of(c)));
            }
            i += 1;
        }
        assert(message@.tool_calls.take(message@.tool_calls.len() as int) =~= message@.tool_calls);
        WireMessage {
            role: Role::Assistant,
            content: Some(message.content.clone()),
            reasoning_content: duplicate_opt(&message.reasoning_content),
            tool_calls,
            tool_call_id: None,
        }
    }

    /// A tool-result message.
    pub fn tool(message: &ToolResultMessage) -> (r: Self)
        ensures
            r@ == wire_of(MessageV::ToolResult(message@)),
    {
        let r = WireMessage {
            role: Role::Tool,
            content: Some(message.content.clone()),
            reasoning_content: None,
            tool_calls: Vec::new(),
            tool_call_id: Some(message.tool_call_id.clone()),
        };
        assert(wire_call_views(r.tool_calls@) =~= Seq::<WireToolCallV>::empty());
        r
    }
}

/// A function in the wire `tools` array: name, description and the JSON
/// Schema (JSON text) of its arguments.
#[derive(Debug, Clone)]
pub struct WireFunction {
    pub name: String,
    pub description: String,
    pub parameters: String,
}

/// A tool definition in the wire `tools` array (type `function`).
#[derive(Debug, Clone)]
pub struct WireTool {
    pub function: WireFunction,
}

impl WireTool {
    /// The wire form of a tool definition.
    pub fn from_definition(definition: &ToolDefinition) -> (r: Self)
        ensures
            r.function.name@ == definition.name@,
            r.function.description@ == definition.description@,
            r.function.parameters@ == definition.parameters@,
    {
        WireTool {
            function: WireFunction {
                name: definition.name.clone(),
                description: definition.description.clone(),
                parameters: definition.parameters.clone(),
            },
        }
    }
}

/// A chat completion request for `POST /chat/completions`.
#[derive(Debug, Clone)]
pub struct DeepSeekRequest {
    pub model: String,
    /// The conversation, including the leading system message.
    pub messages: Vec<WireMessage>,
    /// Tool definitions advertised to the model.
    pub tools: Vec<WireTool>,
    /// Whether to stream the response as SSE chunks.
    pub stream: bool,
    /// DeepSeek's `thinking` parameter.
    pub thinking: Option<Thinking>,
}

/// The wire messages of a conversation: the system message first, then one
/// wire message per transcript message.
pub open spec fn wire_conversation(system: Seq<char>, messages: Seq<MessageV>) -> Seq<WireMessageV> {
    seq![plain_wire(Role::System, system)] + messages.map_values(|m: MessageV| wire_of(m))
}

impl DeepSeekRequest {
    /// Build a request from transcript messages. `system` becomes the first
    /// message.
    pub fn chat(
        model: &str,
        system: &str,
        messages: &[Message],
        tools: &[ToolDefinition],
        stream: bool,
        thinking: Option<Thinking>,
    ) -> (r: Self)
        ensures
            r.model@ == model@,
            wire_message_views(r.messages@) == wire_conversation(system@, message_views(messages@)),
            r.tools@.len() == tools@.len(),
            forall|i: int| 0 <= i < tools@.len() ==> {
                &&& #[trigger] r.tools@[i].function.name@ == tools@[i].name@
                &&& r.tools@[i].function.description@ == tools@[i].description@
                &&& r.tools@[i].function.parameters@ == tools@[i].parameters@
            },
            r.stream == stream,
            r.thinking == thinking,
    {
        let mut wire_messages: Vec<WireMessage> = Vec::new();
        wire_messages.push(WireMessage::system(system));
        let ghost ms = message_views(messages@);
        proof {
            assert(wire_message_views(wire_messages@) =~= wire_conversation(system@, ms.take(0)));
        }
        let mut i: usize = 0;
        while i < messages.len()
            invariant
                0 <= i <= messages@.len(),
                ms == message_views(messages@),
                wire_message_views(wire_messages@) == wire_conversation(system@, ms.take(i as int)),
            decreases messages@.len() - i,
        {
            let ghost prev = wire_messages@;
            let w = match &messages[i] {
                Message::User(user) => WireMessage::user(user.content.as_str()),
                Message::Assistant(assistant) => WireMessage::assistant(assistant),
                Message::ToolResult(tool_result) => WireMessage::tool(tool_result),
            };
            wire_messages.push(w);
            proof {
                assert(w@ == wire_of(ms[i as int]));
                assert(ms.take(i + 1) =~= ms.take(i as int).push(ms[i as int]));
                assert(wire_message_views(wire_messages@) =~= wire_message_views(prev).push(w@));
                assert(wire_message_views(wire_messages@) =~= wire_conversation(system@, ms.take(i + 1)));
            }
            i += 1;
        }
        assert(ms.take(ms.len() as int) =~= ms);
        let mut wire_tools: Vec<WireTool> = Vec::new();
        let mut j: usize = 0;
        while j < tools.len()
            invariant
                0 <= j <= tools@.len(),
                wire_tools@.len() == j,
                forall|k: int| 0 <= k < j ==> {
                    &&& #[trigger] wire_tools@[k].function.name@ == tools@[k].name@
                    &&& wire_tools@[k].function.description@ == tools@[k].description@
                    &&& wire_tools@[k].function.parameters@ == tools@[k].parameters@
                },
            decreases tools@.len() - j,
        {
            wire_tools.push(WireTool::from_definition(&tools[j]));
            j += 1;
        }
        DeepSeekRequest { model: owned(model), messages: wire_messages, tools: wire_tools, stream, thinking }
    }
}

/// Reasoning travels with the request: the wire message of an assistant
/// message carries its reasoning exactly, whether or not it has tool calls,
/// next to its content and one wire call per tool call, in order.
pub proof fn law_assistant_wire_keeps_reasoning(a: AssistantV)
    ensures
        wire_of(MessageV::Assistant(a)).role == Role::Assistant,
        wire_of(MessageV::Assistant(a)).reasoning_content == a.reasoning_content,
        wire_of(MessageV::Assistant(a)).content == Some(a.content),
        wire_of(MessageV::Assistant(a)).tool_calls.len() == a.tool_calls.len(),
        forall|j: int| 0 <= j < a.tool_calls.len() ==>
            #[trigger] wire_of(MessageV::Assistant(a)).tool_calls[j] == wire_call_of(a.tool_calls[j]),
{
}

/// In a whole request, the system prompt comes first and the wire message
/// for transcript message `i` stands at `i + 1`; an assistant message there
/// keeps its reasoning whatever its tool calls.
pub proof fn law_request_keeps_reasoning(system: Seq<char>, messages: Seq<MessageV>, i: int)
    requires
        0 <= i < messages.len(),
        messages[i] is Assistant,
    ensures
        wire_conversation(system, messages).len() == messages.len() + 1,
        wire_conversation(system, messages)[0] == plain_wire(Role::System, system),
        wire_conversation(system, messages)[i + 1].role == Role::Assistant,
        wire_conversation(system, messages)[i + 1].reasoning_content == messages[i]->Assistant_0.reasoning_content,
{
    law_assistant_wire_keeps_reasoning(messages[i]->Assistant_0);
    assert(wire_conversation(system, messages)[i + 1] == wire_of(messages[i]));
}

} // verus!
