use vava::agent::AssistantBuilder;
use vava::error::{AgentError, Cancelled, ToolError};
use vava::event::{AgentEvent, ModelEvent, Usage};
use vava::harness::{AgentHarness, TurnAction, TurnInput};
use vava::message::{AssistantMessage, Message, ToolCall, ToolResult, ToolResultMessage};
use vava::tool::ToolRegistry;

#[test]
fn usage_new_computes_total() {
    let usage = Usage::new(10, 20);
    assert_eq!(usage.prompt_tokens, 10);
    assert_eq!(usage.completion_tokens, 20);
    assert_eq!(usage.total_tokens, 30);
}

#[test]
fn usage_default_is_zero() {
    let usage = Usage::default();
    assert_eq!(usage.total_tokens, 0);
}

#[test]
fn model_event_variants_are_cloneable() {
    let events = [
        ModelEvent::TextDelta("hi".into()),
        ModelEvent::ReasoningDelta("think".into()),
        ModelEvent::ToolCallStarted { index: 0, id: "c".into(), name: "read".into() },
        ModelEvent::ToolCallArgumentsDelta { index: 0, delta: r#"{"path":"x"}"#.into() },
        ModelEvent::Usage(Usage::new(1, 2)),
        ModelEvent::Finished,
    ];
    for event in &events {
        let cloned = event.clone();
        assert_eq!(&cloned, event);
    }
}

#[test]
fn agent_event_carries_call_and_result() {
    let started = AgentEvent::ToolCallStarted { call: ToolCall::new("c1", "read") };
    match started {
        AgentEvent::ToolCallStarted { call } => assert_eq!(call.name, "read"),
        other => panic!("unexpected variant: {other:?}"),
    }
    let finished = AgentEvent::ToolCallFinished { call_id: "c1".into(), result: ToolResult::ok("hello") };
    match finished {
        AgentEvent::ToolCallFinished { call_id, result } => {
            assert_eq!(call_id, "c1");
            assert_eq!(result.content, "hello");
            assert!(!result.is_error);
        }
        other => panic!("unexpected variant: {other:?}"),
    }
}

#[test]
fn ok_result_flags_success() {
    let result = ToolResult::ok("all good");
    assert_eq!(result.content, "all good");
    assert!(!result.is_error);
}

#[test]
fn error_result_flags_failure() {
    let result = ToolResult::error("exit code 1");
    assert_eq!(result.content, "exit code 1");
    assert!(result.is_error);
}

#[test]
fn cancelled_displays_cleanly() {
    assert_eq!(Cancelled.to_string(), "operation cancelled");
}

#[test]
fn agent_error_displays() {
    assert_eq!(AgentError::Cancelled.to_string(), "operation cancelled");
    assert_eq!(AgentError::Client("kaput".to_string()).to_string(), "model client error: kaput");
}

#[test]
fn tool_error_displays_are_helpful() {
    let not_found = ToolError::NotFound("grep".into());
    assert_eq!(not_found.to_string(), "unknown tool: `grep`");
    let invalid = ToolError::InvalidArguments { tool: "read".into(), message: "`path` is required".into() };
    assert_eq!(invalid.to_string(), "invalid arguments for tool `read`: `path` is required");
    let failed = ToolError::Execution { tool: "bash".into(), message: "timed out".into() };
    assert_eq!(failed.to_string(), "tool `bash` failed: timed out");
}

#[test]
fn tool_error_is_comparable() {
    assert_eq!(ToolError::NotFound("read".into()), ToolError::NotFound("read".into()));
    assert_ne!(ToolError::NotFound("read".into()), ToolError::NotFound("write".into()));
}

#[test]
fn tool_result_from_call_carries_result() {
    let mut call = ToolCall::new("call_9", "bash");
    call.arguments = r#"{"command":"cargo test"}"#.to_string();
    let result = ToolResult::error("exit code 101");
    let m = ToolResultMessage::from_call(&call, result);
    assert_eq!(m.tool_call_id, "call_9");
    assert_eq!(m.tool_name, "bash");
    assert_eq!(m.content, "exit code 101");
    assert!(m.is_error);
}

#[test]
fn assistant_is_final_only_without_tool_calls() {
    assert!(AssistantMessage::new("done").is_final());
    let with_call = AssistantMessage {
        content: String::new(),
        reasoning_content: None,
        tool_calls: vec![ToolCall::new("c", "read")],
    };
    assert!(!with_call.is_final());
}

#[test]
fn tool_call_new_has_null_arguments() {
    let call = ToolCall::new("c1", "read");
    assert_eq!(call.id, "c1");
    assert_eq!(call.name, "read");
    assert_eq!(call.arguments, "null");
}

#[test]
fn assembles_text_and_reasoning() {
    let mut builder = AssistantBuilder::new();
    builder.push(ModelEvent::ReasoningDelta("think".into()));
    builder.push(ModelEvent::TextDelta("Hello ".into()));
    builder.push(ModelEvent::TextDelta("world".into()));
    builder.push(ModelEvent::Finished);
    assert!(builder.is_finished());
    let message = builder.build();
    assert_eq!(message.content, "Hello world");
    assert_eq!(message.reasoning_content.as_deref(), Some("think"));
    assert!(message.tool_calls.is_empty());
}

#[test]
fn assembles_tool_calls_from_fragments() {
    let mut builder = AssistantBuilder::new();
    builder.push(ModelEvent::ToolCallStarted { index: 0, id: "call_1".into(), name: "read".into() });
    builder.push(ModelEvent::ToolCallArgumentsDelta { index: 0, delta: r#"{"path":"src"#.into() });
    builder.push(ModelEvent::ToolCallArgumentsDelta { index: 0, delta: r#"/main.rs"}"#.into() });
    builder.push(ModelEvent::ToolCallStarted { index: 1, id: "call_2".into(), name: "bash".into() });
    builder.push(ModelEvent::ToolCallArgumentsDelta { index: 1, delta: r#"{"command":"cargo test"}"#.into() });
    builder.push(ModelEvent::Finished);
    let message = builder.build();
    assert_eq!(message.tool_calls.len(), 2);
    assert_eq!(message.tool_calls[0].id, "call_1");
    assert_eq!(message.tool_calls[0].name, "read");
    assert_eq!(message.tool_calls[0].arguments, r#"{"path":"src/main.rs"}"#);
    assert_eq!(message.tool_calls[1].arguments, r#"{"command":"cargo test"}"#);
}

#[test]
fn malformed_arguments_become_null() {
    let mut builder = AssistantBuilder::new();
    builder.push(ModelEvent::ToolCallStarted { index: 0, id: "c".into(), name: "read".into() });
    builder.push(ModelEvent::ToolCallArgumentsDelta { index: 0, delta: "{oops".into() });
    builder.push(ModelEvent::Finished);
    let message = builder.build();
    assert_eq!(message.tool_calls[0].arguments, "null");
}

#[test]
fn keeps_reasoning_when_tool_calls_present() {
    let mut builder = AssistantBuilder::new();
    builder.push(ModelEvent::ReasoningDelta("let me check".into()));
    builder.push(ModelEvent::ToolCallStarted { index: 0, id: "c".into(), name: "bash".into() });
    builder.push(ModelEvent::Finished);
    let message = builder.build();
    assert_eq!(message.reasoning_content.as_deref(), Some("let me check"));
    assert_eq!(message.tool_calls.len(), 1);
}

#[test]
fn tracks_usage_and_finished() {
    let mut builder = AssistantBuilder::new();
    assert!(!builder.is_finished());
    builder.push(ModelEvent::Usage(Usage::new(10, 5)));
    builder.push(ModelEvent::Finished);
    assert!(builder.is_finished());
    assert_eq!(builder.usage(), Some(Usage::new(10, 5)));
}

#[test]
fn unnamed_calls_are_dropped() {
    let mut builder = AssistantBuilder::new();
    builder.push(ModelEvent::ToolCallStarted { index: 2, id: "c".into(), name: "read".into() });
    builder.push(ModelEvent::Finished);
    let message = builder.build();
    assert_eq!(message.tool_calls.len(), 1);
    assert_eq!(message.tool_calls[0].name, "read");
}

#[test]
fn text_deltas_concatenate_in_order() {
    let mut builder = AssistantBuilder::new();
    for piece in ["a", "bc", "", "d"] {
        builder.push(ModelEvent::TextDelta(piece.into()));
    }
    builder.push(ModelEvent::ReasoningDelta("x".into()));
    builder.push(ModelEvent::ReasoningDelta("y".into()));
    let message = builder.build();
    assert_eq!(message.content, "abcd");
    assert_eq!(message.reasoning_content.as_deref(), Some("xy"));
}

#[test]
fn registry_resolves_the_first_tool_by_name() {
    let mut registry = ToolRegistry::new();
    registry.register(vava::message::ToolDefinition::new("read", "r", "{}"));
    registry.register(vava::message::ToolDefinition::new("bash", "b", "{}"));
    assert_eq!(registry.names(), vec!["read", "bash"]);
    assert_eq!(registry.resolve("bash"), Ok(1));
    assert_eq!(registry.resolve("grep"), Err(ToolError::NotFound("grep".into())));
}

#[test]
fn harness_transcript_only_grows() {
    let mut harness = AgentHarness::new(ToolRegistry::new(), "sys", "/tmp");
    let (event, action) = harness.begin_turn("fix the tests".to_string());
    assert_eq!(event, AgentEvent::TurnStarted);
    assert_eq!(action, TurnAction::StreamModel);
    let mut assistant = AssistantMessage::new("");
    assistant.tool_calls.push(ToolCall::new("call_1", "bash"));
    let (events, action) = harness.step(TurnInput::ModelAnswered(assistant.clone()));
    assert_eq!(events, vec![AgentEvent::AssistantMessageCompleted { message: assistant.clone() }]);
    assert_eq!(action, TurnAction::RunTool(ToolCall::new("call_1", "bash")));
    let (events, action) =
        harness.step(TurnInput::ToolDone(Err(ToolError::Execution { tool: "bash".into(), message: "boom".into() })));
    assert_eq!(
        events,
        vec![AgentEvent::ToolCallFinished { call_id: "call_1".into(), result: ToolResult::error("tool `bash` failed: boom") }]
    );
    assert_eq!(action, TurnAction::StreamModel);
    assert_eq!(harness.messages().len(), 3);
    match &harness.messages()[2] {
        Message::ToolResult(t) => {
            assert!(t.is_error);
            assert_eq!(t.content, "tool `bash` failed: boom");
        }
        other => panic!("expected a tool result, got {other:?}"),
    }
    let (events, action) = harness.step(TurnInput::Cancelled);
    assert_eq!(events, vec![AgentEvent::Error { message: "operation cancelled".into() }]);
    assert_eq!(action, TurnAction::Failed(AgentError::Cancelled));
    assert_eq!(harness.messages().len(), 3);
}

#[test]
fn a_turn_runs_each_tool_then_asks_the_model_again() {
    let mut harness = AgentHarness::new(ToolRegistry::new(), "sys", "/tmp");
    harness.begin_turn("look around".to_string());
    let mut first = AssistantMessage::new("");
    first.tool_calls.push(ToolCall::new("c1", "read"));
    first.tool_calls.push(ToolCall::new("c2", "bash"));
    let (_, action) = harness.step(TurnInput::ModelAnswered(first.clone()));
    assert_eq!(action, TurnAction::RunTool(ToolCall::new("c1", "read")));
    let (_, action) = harness.step(TurnInput::ToolDone(Ok(ToolResult::ok("file"))));
    assert_eq!(action, TurnAction::RunTool(ToolCall::new("c2", "bash")));
    let (_, action) = harness.step(TurnInput::ToolDone(Ok(ToolResult::ok("ran"))));
    assert_eq!(action, TurnAction::StreamModel);
    let answer = AssistantMessage::new("all good");
    let (events, action) = harness.step(TurnInput::ModelAnswered(answer.clone()));
    assert_eq!(events, vec![AgentEvent::AssistantMessageCompleted { message: answer.clone() }, AgentEvent::TurnCompleted]);
    assert_eq!(action, TurnAction::Done);
    let kinds: Vec<&str> = harness
        .messages()
        .iter()
        .map(|m| match m {
            Message::User(_) => "user",
            Message::Assistant(_) => "assistant",
            Message::ToolResult(_) => "tool",
        })
        .collect();
    assert_eq!(kinds, vec!["user", "assistant", "tool", "tool", "assistant"]);
    match (&harness.messages()[2], &harness.messages()[3]) {
        (Message::ToolResult(a), Message::ToolResult(b)) => {
            assert_eq!((a.tool_call_id.as_str(), a.content.as_str()), ("c1", "file"));
            assert_eq!((b.tool_call_id.as_str(), b.content.as_str()), ("c2", "ran"));
        }
        other => panic!("expected two tool results, got {other:?}"),
    }
}

#[test]
fn a_stream_failure_ends_the_turn_with_the_transcript_unchanged() {
    let mut harness = AgentHarness::new(ToolRegistry::new(), "sys", "/tmp");
    harness.begin_turn("hi".to_string());
    let (events, action) = harness.step(TurnInput::ModelFailed("connection reset".into()));
    assert_eq!(events, vec![AgentEvent::Error { message: "model client error: connection reset".into() }]);
    assert_eq!(action, TurnAction::Failed(AgentError::Client("connection reset".into())));
    assert_eq!(harness.messages().len(), 1);
}

#[test]
fn interleaved_fragments_assemble_by_index() {
    let mut builder = AssistantBuilder::new();
    builder.push(ModelEvent::ToolCallStarted { index: 1, id: "b".into(), name: "bash".into() });
    builder.push(ModelEvent::ToolCallStarted { index: 0, id: "a".into(), name: "read".into() });
    builder.push(ModelEvent::ToolCallArgumentsDelta { index: 1, delta: "{\"command\":".into() });
    builder.push(ModelEvent::TextDelta("x".into()));
    builder.push(ModelEvent::ToolCallArgumentsDelta { index: 0, delta: "{\"path\":\"a.rs\"}".into() });
    builder.push(ModelEvent::ToolCallArgumentsDelta { index: 1, delta: "\"ls\"}".into() });
    assert!(!builder.is_finished());
    builder.push(ModelEvent::Finished);
    builder.push(ModelEvent::TextDelta("y".into()));
    assert!(builder.is_finished());
    let message = builder.build();
    assert_eq!(message.content, "xy");
    assert_eq!(message.tool_calls.len(), 2);
    assert_eq!((message.tool_calls[0].id.as_str(), message.tool_calls[0].arguments.as_str()), ("a", "{\"path\":\"a.rs\"}"));
    assert_eq!((message.tool_calls[1].id.as_str(), message.tool_calls[1].arguments.as_str()), ("b", "{\"command\":\"ls\"}"));
}
