//! Typed errors raised by the core layer.

use vstd::prelude::*;

use crate::text::{owned, push_str};

verus! {

/// A marker for an operation cancelled by the user.
#[derive(Debug, Clone, Copy, PartialEq, Eq)]
pub struct Cancelled;

impl Cancelled {
    /// The display text: `operation cancelled`.
    pub fn to_string(&self) -> (r: String)
        ensures
            r@ == "operation cancelled"@,
    {
        owned("operation cancelled")
    }
}

/// Errors raised by the agent harness while running a conversation.
#[derive(Debug, Clone, PartialEq, Eq)]
pub enum AgentError {
    /// The operation was cancelled by the user.
    Cancelled,
    /// The model client failed; the message of the client's error.
    Client(String),
}

/// The display text of an [`AgentError`].
pub open spec fn agent_error_text(e: AgentError) -> Seq<char> {
    match e {
        AgentError::Cancelled => "operation cancelled"@,
        AgentError::Client(m) => "model client error: "@ + m@,
    }
}

impl AgentError {
    /// The human-readable message for this error.
    pub fn to_string(&self) -> (r: String)
        ensures
            r@ == agent_error_text(*self),
    {
        match self {
            AgentError::Cancelled => owned("operation cancelled"),
            AgentError::Client(m) => {
                let mut s = owned("model client error: ");
                push_str(&mut s, m.as_str());
                s
            },
        }
    }
}

/// Errors raised by the tool layer: resolving a tool, validating its
/// arguments, or executing it.
#[derive(Debug, Clone, PartialEq, Eq)]
pub enum ToolError {
    /// The model asked for a tool that is not registered.
    NotFound(String),
    /// The tool call's arguments did not validate.
    InvalidArguments { tool: String, message: String },
    /// The tool could not be executed.
    Execution { tool: String, message: String },
    /// The operation was cancelled before the tool ran.
    Cancelled,
}

/// The display text of a [`ToolError`].
pub open spec fn tool_error_text(e: ToolError) -> Seq<char> {
    match e {
        ToolError::NotFound(n) => "unknown tool: `"@ + n@ + "`"@,
        ToolError::InvalidArguments { tool, message } =>
            "invalid arguments for tool `"@ + tool@ + "`: "@ + message@,
        ToolError::Execution { tool, message } => "tool `"@ + tool@ + "` failed: "@ + message@,
        ToolError::Cancelled => "tool execution cancelled"@,
    }
}

impl ToolError {
    /// The human-readable message for this error.
    pub fn to_string(&self) -> (r: String)
        ensures
            r@ == tool_error_text(*self),
    {
        match self {
            ToolError::NotFound(n) => {
                let mut s = owned("unknown tool: `");
                push_str(&mut s, n.as_str());
                push_str(&mut s, "`");
                s
            },
            ToolError::InvalidArguments { tool, message } => {
                let mut s = owned("invalid arguments for tool `");
                push_str(&mut s, tool.as_str());
                push_str(&mut s, "`: ");
                push_str(&mut s, message.as_str());
                s
            },
            ToolError::Execution { tool, message } => {
                let mut s = owned("tool `");
                push_str(&mut s, tool.as_str());
                push_str(&mut s, "` failed: ");
                push_str(&mut s, message.as_str());
                s
            },
            ToolError::Cancelled => owned("tool execution cancelled"),
        }
    }
}

} // verus!
