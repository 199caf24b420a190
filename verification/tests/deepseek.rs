use vava::deepseek_error::{api_failure, DeepSeekError};
use vava::event::{ModelEvent, Usage};
use vava::model::ModelConfig;
use vava::request::{Role, WireMessage};
use vava::response::{Delta, DeltaFunction, DeltaToolCall, DeepSeekUsage, StreamChoice, StreamChunk};
use vava::stream::{events_for_payload, parse_payload, SseParser, StreamClose, StreamEvent};
use vava::translate::ChunkTranslator;
use serde_json::Value;

/// A recorded tool turn: reasoning, one bash call, the finish reason, usage.
const TOOL_TURN: &str = "data: {\"id\":\"chatcmpl-tool\",\"object\":\"chat.completion.chunk\",\"created\":1700000000,\"model\":\"deepseek-chat\",\"choices\":[{\"index\":0,\"delta\":{\"role\":\"assistant\",\"content\":\"\",\"reasoning_content\":\"Let me think about this.\"},\"finish_reason\":null}]}\n\n\
data: {\"id\":\"chatcmpl-tool\",\"object\":\"chat.completion.chunk\",\"created\":1700000000,\"model\":\"deepseek-chat\",\"choices\":[{\"index\":0,\"delta\":{\"reasoning_content\":\" First, I'll run the tests.\"},\"finish_reason\":null}]}\n\n\
data: {\"id\":\"chatcmpl-tool\",\"object\":\"chat.completion.chunk\",\"created\":1700000000,\"model\":\"deepseek-chat\",\"choices\":[{\"index\":0,\"delta\":{\"tool_calls\":[{\"index\":0,\"id\":\"call_1\",\"type\":\"function\",\"function\":{\"name\":\"bash\",\"arguments\":\"\"}}]},\"finish_reason\":null}]}\n\n\
data: {\"id\":\"chatcmpl-tool\",\"object\":\"chat.completion.chunk\",\"created\":1700000000,\"model\":\"deepseek-chat\",\"choices\":[{\"index\":0,\"delta\":{\"tool_calls\":[{\"index\":0,\"function\":{\"arguments\":\"cargo test\"}}]},\"finish_reason\":null}]}\n\n\
: keep-alive\n\n\
data: {\"id\":\"chatcmpl-tool\",\"object\":\"chat.completion.chunk\",\"created\":1700000000,\"model\":\"deepseek-chat\",\"choices\":[{\"index\":0,\"delta\":{\"content\":\"\"},\"finish_reason\":null}]}\n\n\
data: {\"id\":\"chatcmpl-tool\",\"object\":\"chat.completion.chunk\",\"created\":1700000000,\"model\":\"deepseek-chat\",\"choices\":[{\"index\":0,\"delta\":{},\"finish_reason\":\"tool_calls\"}]}\n\n\
data: {\"id\":\"chatcmpl-tool\",\"object\":\"chat.completion.chunk\",\"created\":1700000000,\"model\":\"deepseek-chat\",\"choices\":[],\"usage\":{\"prompt_tokens\":20,\"completion_tokens\":10,\"total_tokens\":30,\"prompt_cache_hit_tokens\":0,\"prompt_cache_miss_tokens\":20}}\n\n\
data: [DONE]\n\n";

/// A recorded final answer: reasoning, then text, then the finish reason.
const FINAL_ANSWER: &str = "data: {\"id\":\"chatcmpl-final\",\"object\":\"chat.completion.chunk\",\"created\":1700000001,\"model\":\"deepseek-reasoner\",\"choices\":[{\"index\":0,\"delta\":{\"role\":\"assistant\",\"content\":null,\"reasoning_content\":\"Done\"},\"finish_reason\":null}]}\n\n\
data: {\"id\":\"chatcmpl-final\",\"object\":\"chat.completion.chunk\",\"created\":1700000001,\"model\":\"deepseek-reasoner\",\"choices\":[{\"index\":0,\"delta\":{\"reasoning_content\":\".\"},\"finish_reason\":null}]}\n\n\
data: {\"id\":\"chatcmpl-final\",\"object\":\"chat.completion.chunk\",\"created\":1700000001,\"model\":\"deepseek-reasoner\",\"choices\":[{\"index\":0,\"delta\":{\"content\":\"The tests \"},\"finish_reason\":null}]}\n\n\
data: {\"id\":\"chatcmpl-final\",\"object\":\"chat.completion.chunk\",\"created\":1700000001,\"model\":\"deepseek-reasoner\",\"choices\":[{\"index\":0,\"delta\":{\"content\":\"pass now.\"},\"finish_reason\":null}]}\n\n\
data: {\"id\":\"chatcmpl-final\",\"object\":\"chat.completion.chunk\",\"created\":1700000001,\"model\":\"deepseek-reasoner\",\"choices\":[{\"index\":0,\"delta\":{},\"finish_reason\":\"stop\"}]}\n\n\
data: [DONE]\n\n";

/// Feed a whole stream through the framing parser in `chunk_size`-byte
/// pieces, collecting every `data:` payload in order.
fn frame(stream: &str, chunk_size: usize) -> Vec<String> {
    let mut parser = SseParser::new();
    let mut payloads = Vec::new();
    for piece in stream.as_bytes().chunks(chunk_size) {
        payloads.extend(parser.push(piece).unwrap());
    }
    if let Some(tail) = parser.finish() {
        payloads.push(tail);
    }
    payloads
}

fn chunk(choices: Vec<StreamChoice>, usage: Option<DeepSeekUsage>) -> StreamChunk {
    StreamChunk { id: "x".into(), object: None, created: None, model: None, choices, usage }
}

fn choice(delta: Delta, finish_reason: Option<&str>) -> StreamChoice {
    StreamChoice { index: 0, delta, finish_reason: finish_reason.map(str::to_string) }
}

fn delta() -> Delta {
    Delta { role: None, content: None, reasoning_content: None, tool_calls: Vec::new() }
}

fn call(index: usize, id: Option<&str>, name: Option<&str>, arguments: Option<&str>) -> DeltaToolCall {
    DeltaToolCall {
        index,
        id: id.map(str::to_string),
        kind: id.map(|_| "function".to_string()),
        function: Some(DeltaFunction { name: name.map(str::to_string), arguments: arguments.map(str::to_string) }),
    }
}

#[test]
fn errors_display_helpfully() {
    assert_eq!(DeepSeekError::Sse("bad utf-8".into()).to_string(), "SSE parse error: bad utf-8");
    assert_eq!(DeepSeekError::Protocol("missing id".into()).to_string(), "DeepSeek protocol error: missing id");
    assert_eq!(DeepSeekError::Cancelled.to_string(), "operation cancelled");
}

#[test]
fn api_errors_display_with_their_status() {
    let error = DeepSeekError::Api { status: 401, message: "Invalid API key".into() };
    assert_eq!(error.to_string(), "DeepSeek API error (HTTP 401): Invalid API key");
    assert_eq!(DeepSeekError::Http("connection reset".into()).to_string(), "HTTP error: connection reset");
}

#[test]
fn unreadable_error_bodies_fall_back_to_the_status() {
    assert_eq!(
        api_failure(401, None),
        DeepSeekError::Api { status: 401, message: "HTTP 401 Unauthorized".into() }
    );
    assert_eq!(
        api_failure(429, Some("rate limit".into())),
        DeepSeekError::Api { status: 429, message: "rate limit".into() }
    );
}

#[test]
fn defaults_point_at_the_official_api() {
    let config = ModelConfig::default();
    assert_eq!(config.model, "deepseek-chat");
    assert!(!config.thinking);
    assert_eq!(config.base_url, "https://api.deepseek.com");
}

#[test]
fn builder_overrides_individual_fields() {
    let config = ModelConfig::new("deepseek-reasoner").with_thinking(true).with_base_url("http://localhost:8080");
    assert_eq!(config.model, "deepseek-reasoner");
    assert!(config.thinking);
    assert_eq!(config.base_url, "http://localhost:8080");
    let config = ModelConfig::default().with_thinking(true);
    assert_eq!(config.model, "deepseek-chat");
    assert_eq!(config.base_url, "https://api.deepseek.com");
}

#[test]
fn endpoint_drops_trailing_slashes() {
    let config = ModelConfig::default().with_base_url("http://localhost:8080//");
    assert_eq!(config.endpoint(), "http://localhost:8080/chat/completions");
    assert_eq!(ModelConfig::default().endpoint(), "https://api.deepseek.com/chat/completions");
}

#[test]
fn framing_handles_split_bytes_and_crlf() {
    let stream = "data: {\"id\":\"x\",\"choices\":[]}\r\n\r\ndata: [DONE]\r\n\r\n";
    let mut parser = SseParser::new();
    let mut payloads = Vec::new();
    for byte in stream.as_bytes() {
        payloads.extend(parser.push(std::slice::from_ref(byte)).unwrap());
    }
    assert_eq!(parser.finish(), None);
    assert_eq!(payloads, vec![r#"{"id":"x","choices":[]}"#, "[DONE]"]);
}

#[test]
fn framing_joins_multi_line_data_with_newline() {
    let stream = "data: first\ndata: second\n\n";
    let mut parser = SseParser::new();
    let payloads = parser.push(stream.as_bytes()).unwrap();
    assert_eq!(payloads, vec!["first\nsecond"]);
}

#[test]
fn framing_ignores_comments_and_other_fields() {
    let stream = ": keep-alive comment\nid: 1\nevent: message\ndata: {\"id\":\"x\"}\n\n";
    let mut parser = SseParser::new();
    let payloads = parser.push(stream.as_bytes()).unwrap();
    assert_eq!(payloads, vec![r#"{"id":"x"}"#]);
}

#[test]
fn framing_tolerates_missing_trailing_blank_line() {
    let stream = "data: {\"id\":\"x\"}\n";
    let mut parser = SseParser::new();
    let payloads = parser.push(stream.as_bytes()).unwrap();
    assert!(payloads.is_empty());
    assert_eq!(parser.finish().as_deref(), Some(r#"{"id":"x"}"#));
}

#[test]
fn framing_rejects_invalid_utf8_in_data() {
    let mut parser = SseParser::new();
    let err = parser.push(b"data: \xff\xfe\n\n").unwrap_err();
    assert!(matches!(err, DeepSeekError::Sse(_)));
}

#[test]
fn tool_turn_frames_to_expected_payloads() {
    let payloads = frame(TOOL_TURN, 64);
    assert_eq!(payloads.len(), 8);
    assert!(payloads[0].starts_with(r#"{"id":"chatcmpl-tool""#));
    assert!(payloads[6].contains(r#""usage""#));
    assert_eq!(payloads[7], "[DONE]");
}

#[test]
fn framing_does_not_depend_on_fragmentation() {
    let whole = frame(TOOL_TURN, TOOL_TURN.len());
    for size in [1usize, 3, 16, 64, 1024] {
        assert_eq!(frame(TOOL_TURN, size), whole);
    }
}

#[test]
fn translator_emits_start_once_and_accumulates_arguments() {
    let mut translator = ChunkTranslator::new();
    let mut d = delta();
    d.tool_calls.push(call(0, Some("call_1"), Some("bash"), Some("")));
    let events = translator.feed(&chunk(vec![choice(d, None)], None));
    assert_eq!(events, vec![ModelEvent::ToolCallStarted { index: 0, id: "call_1".into(), name: "bash".into() }]);

    let mut d = delta();
    d.tool_calls.push(call(0, None, None, Some("cargo ")));
    let events = translator.feed(&chunk(vec![choice(d, None)], None));
    assert_eq!(events, vec![ModelEvent::ToolCallArgumentsDelta { index: 0, delta: "cargo ".into() }]);

    let mut d = delta();
    d.tool_calls.push(call(1, Some("call_2"), Some("read"), Some("{\"path\":")));
    let events = translator.feed(&chunk(vec![choice(d, None)], None));
    assert_eq!(
        events,
        vec![
            ModelEvent::ToolCallStarted { index: 1, id: "call_2".into(), name: "read".into() },
            ModelEvent::ToolCallArgumentsDelta { index: 1, delta: r#"{"path":"#.into() },
        ]
    );
}

#[test]
fn translator_forwards_text_and_reasoning_deltas() {
    let mut translator = ChunkTranslator::new();
    let mut d = delta();
    d.reasoning_content = Some("think".into());
    d.content = Some("Hello".into());
    let events = translator.feed(&chunk(vec![choice(d, None)], None));
    assert_eq!(events, vec![ModelEvent::TextDelta("Hello".into()), ModelEvent::ReasoningDelta("think".into())]);
}

#[test]
fn translator_skips_empty_deltas() {
    let mut translator = ChunkTranslator::new();
    let mut d = delta();
    d.role = Some("assistant".into());
    d.content = Some(String::new());
    d.reasoning_content = Some(String::new());
    let events = translator.feed(&chunk(vec![choice(d, None)], None));
    assert!(events.is_empty());
}

#[test]
fn translator_emits_finished_and_usage() {
    let mut translator = ChunkTranslator::new();
    let usage = DeepSeekUsage {
        prompt_tokens: 10,
        completion_tokens: 5,
        total_tokens: 15,
        prompt_cache_hit_tokens: Some(0),
        prompt_cache_miss_tokens: Some(10),
    };
    let events = translator.feed(&chunk(vec![choice(delta(), Some("stop"))], Some(usage)));
    assert_eq!(events, vec![ModelEvent::Usage(Usage::new(10, 5)), ModelEvent::Finished]);
}

#[test]
fn done_payload_yields_nothing_and_bad_json_is_a_protocol_error() {
    let mut translator = ChunkTranslator::new();
    let done = events_for_payload("[DONE]", Err("expected value".into()), &mut translator);
    assert_eq!(done.unwrap(), Vec::<ModelEvent>::new());
    let bad = events_for_payload("{not json", Err("key must be a string".into()), &mut translator);
    assert_eq!(bad.unwrap_err(), DeepSeekError::Protocol("invalid chunk JSON: key must be a string".into()));
}

#[test]
fn a_stream_without_a_finish_reason_still_finishes() {
    let mut close = StreamClose::new();
    close.observe(&vec![ModelEvent::TextDelta("partial".into())]);
    assert_eq!(close.closing(), vec![ModelEvent::Finished]);
    let mut close = StreamClose::new();
    close.observe(&vec![ModelEvent::Finished]);
    assert!(close.closing().is_empty());
}

#[test]
fn wire_messages_carry_their_role() {
    let system = WireMessage::system("You are vava.");
    assert_eq!(system.role, Role::System);
    assert_eq!(system.content.as_deref(), Some("You are vava."));
    let user = WireMessage::user("run the tests");
    assert_eq!(user.role, Role::User);
    assert_eq!(user.content.as_deref(), Some("run the tests"));
}

#[test]
fn parse_payload_recognizes_done() {
    // The end marker is recognised whatever a chunk decoder made of it.
    assert!(matches!(parse_payload("[DONE]", Err("expected value".into())), Ok(StreamEvent::Done)));
}

#[test]
fn parse_payload_accepts_a_chunk() {
    let payload = r#"{"id":"x","choices":[{"index":0,"delta":{"content":"hi"},"finish_reason":null}]}"#;
    let decoded = chunk(vec![choice(Delta { content: Some("hi".into()), ..delta() }, None)], None);
    match parse_payload(payload, Ok(decoded)).unwrap() {
        StreamEvent::Chunk(chunk) => {
            assert_eq!(chunk.id, "x");
            assert_eq!(chunk.choices[0].delta.content.as_deref(), Some("hi"));
        }
        StreamEvent::Done => panic!("expected a chunk"),
    }
}

#[test]
fn parse_payload_rejects_invalid_json() {
    let err = parse_payload("{not json", Err("key must be a string at line 1 column 2".into())).unwrap_err();
    match err {
        DeepSeekError::Protocol(text) => {
            assert_eq!(text, "invalid chunk JSON: key must be a string at line 1 column 2")
        }
        other => panic!("expected a protocol error, got {other:?}"),
    }
}

#[test]
fn parse_payload_rejects_json_that_is_not_a_chunk() {
    let err = parse_payload(r#"{"foo": 1}"#, Err("missing field `id`".into())).unwrap_err();
    assert!(matches!(err, DeepSeekError::Protocol(_)));
}

fn field_text(v: &Value, key: &str) -> Option<String> {
    v.get(key).and_then(Value::as_str).map(str::to_string)
}

fn field_number(v: &Value, key: &str) -> Option<u64> {
    v.get(key).and_then(Value::as_u64)
}

/// Decode one payload as a streaming chunk, by its JSON value.
fn decode_chunk(payload: &str) -> Result<StreamChunk, String> {
    let v: Value = serde_json::from_str(payload).map_err(|e| e.to_string())?;
    let id = field_text(&v, "id").ok_or("missing field `id`")?;
    let mut choices = Vec::new();
    for c in v.get("choices").and_then(Value::as_array).ok_or("missing field `choices`")? {
        let d = c.get("delta").ok_or("missing field `delta`")?;
        let mut tool_calls = Vec::new();
        for t in d.get("tool_calls").and_then(Value::as_array).cloned().unwrap_or_default() {
            tool_calls.push(DeltaToolCall {
                index: field_number(&t, "index").ok_or("missing field `index`")? as usize,
                id: field_text(&t, "id"),
                kind: field_text(&t, "type"),
                function: t.get("function").map(|f| DeltaFunction {
                    name: field_text(f, "name"),
                    arguments: field_text(f, "arguments"),
                }),
            });
        }
        choices.push(StreamChoice {
            index: field_number(c, "index").ok_or("missing field `index`")? as usize,
            delta: Delta {
                role: field_text(d, "role"),
                content: field_text(d, "content"),
                reasoning_content: field_text(d, "reasoning_content"),
                tool_calls,
            },
            finish_reason: field_text(c, "finish_reason"),
        });
    }
    let usage = v.get("usage").map(|u| DeepSeekUsage {
        prompt_tokens: field_number(u, "prompt_tokens").unwrap_or(0),
        completion_tokens: field_number(u, "completion_tokens").unwrap_or(0),
        total_tokens: field_number(u, "total_tokens").unwrap_or(0),
        prompt_cache_hit_tokens: field_number(u, "prompt_cache_hit_tokens"),
        prompt_cache_miss_tokens: field_number(u, "prompt_cache_miss_tokens"),
    });
    Ok(StreamChunk {
        id,
        object: field_text(&v, "object"),
        created: field_number(&v, "created"),
        model: field_text(&v, "model"),
        choices,
        usage,
    })
}

/// Interpret payloads and translate chunks into model events.
fn to_events(payloads: &[String]) -> Vec<ModelEvent> {
    let mut translator = ChunkTranslator::new();
    let mut events = Vec::new();
    for payload in payloads {
        events.extend(events_for_payload(payload, decode_chunk(payload), &mut translator).unwrap());
    }
    events
}

#[test]
fn tool_turn_produces_reasoning_tool_call_and_usage_events() {
    let events = to_events(&frame(TOOL_TURN, 64));
    assert_eq!(
        events,
        vec![
            ModelEvent::ReasoningDelta("Let me think about this.".into()),
            ModelEvent::ReasoningDelta(" First, I'll run the tests.".into()),
            ModelEvent::ToolCallStarted { index: 0, id: "call_1".into(), name: "bash".into() },
            ModelEvent::ToolCallArgumentsDelta { index: 0, delta: "cargo test".into() },
            ModelEvent::Finished,
            ModelEvent::Usage(Usage::new(20, 10)),
        ]
    );
}

#[test]
fn final_answer_concatenates_reasoning_and_text() {
    let events = to_events(&frame(FINAL_ANSWER, 64));
    let mut reasoning = String::new();
    let mut content = String::new();
    for event in &events {
        match event {
            ModelEvent::ReasoningDelta(delta) => reasoning.push_str(delta),
            ModelEvent::TextDelta(delta) => content.push_str(delta),
            _ => {}
        }
    }
    assert_eq!(reasoning, "Done.");
    assert_eq!(content, "The tests pass now.");
    assert!(events.contains(&ModelEvent::Finished));
    assert!(!events.iter().any(|e| matches!(e, ModelEvent::Usage(_))));
}

#[test]
fn fragmentation_does_not_change_the_result() {
    let events = [3usize, 16, 64, 1024].map(|size| to_events(&frame(TOOL_TURN, size)));
    assert!(events.windows(2).all(|pair| pair[0] == pair[1]));
}

#[test]
fn a_stream_ending_in_a_blank_line_leaves_nothing_for_finish() {
    let mut parser = SseParser::new();
    let payloads = parser.push(TOOL_TURN.as_bytes()).unwrap();
    assert_eq!(payloads.len(), 8);
    assert_eq!(parser.finish(), None);
}
