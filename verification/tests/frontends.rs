use vava::cli::{
    choose_session, info_lines, is_exit_command, listing_lines, parse_usize, relative_time_at, resumed_banner,
    truncate, Cli, PickResult, Renderer, ReplAction, ReplState,
};
use vava::desktop::{
    app_version, build_repository_info, recent_repository, repository_name, DesktopAgentEvent, DesktopError,
    DesktopToolResult, RecentEntry, Recents,
};
use vava::event::AgentEvent;
use vava::message::{ToolCall, ToolResult};
use vava::persistence::{summarize, SessionHeader, SessionSummary, Timestamp};
use vava::tui::{Key, KeyAction, TuiState};

fn now() -> Timestamp {
    let now = chrono::Utc::now();
    Timestamp { secs: now.timestamp(), nanos: now.timestamp_subsec_nanos() }
}

fn minutes_ago(minutes: i64) -> Timestamp {
    let t = chrono::Utc::now() - chrono::Duration::minutes(minutes);
    Timestamp { secs: t.timestamp(), nanos: t.timestamp_subsec_nanos() }
}

fn summary(id: &str, minutes: i64, first: &str) -> SessionSummary {
    let header = SessionHeader { id: id.into(), cwd: "/repo".into(), created_at: None };
    summarize(&header, minutes_ago(minutes), Some(first.into()))
}

fn render(events: &[AgentEvent], show_reasoning: bool) -> String {
    let mut renderer = Renderer::new(show_reasoning);
    let mut out = String::new();
    for event in events {
        renderer.render(event, &mut out);
    }
    out
}

fn call(id: &str, name: &str, arguments: &str) -> ToolCall {
    let mut call = ToolCall::new(id, name);
    call.arguments = arguments.to_string();
    call
}

#[test]
fn thinking_flags_resolve() {
    let cli = |thinking: bool, no_thinking: bool| Cli {
        prompt: None,
        cwd: None,
        model: "deepseek-chat".into(),
        thinking,
        no_thinking,
        debug: false,
    };
    assert!(cli(true, false).effective_thinking());
    assert!(!cli(false, true).effective_thinking());
    assert!(!cli(false, false).effective_thinking());
    // Both flags set (clap refuses this on the command line): `--thinking` wins.
    assert!(cli(true, true).effective_thinking());
}

#[test]
fn renders_the_prompt_header() {
    let renderer = Renderer::new(false);
    let mut out = String::new();
    renderer.render_prompt("fix the tests", &mut out);
    assert_eq!(out, "> fix the tests\n\n");
}

#[test]
fn streams_text_deltas() {
    let out = render(
        &[
            AgentEvent::TurnStarted,
            AgentEvent::TextDelta { delta: "Hello ".into() },
            AgentEvent::TextDelta { delta: "world".into() },
            AgentEvent::TurnCompleted,
        ],
        false,
    );
    assert_eq!(out, "Hello world\n");
}

#[test]
fn shows_a_thinking_marker_once_by_default() {
    let out = render(
        &[
            AgentEvent::TurnStarted,
            AgentEvent::ReasoningDelta { delta: "think one".into() },
            AgentEvent::ReasoningDelta { delta: " think two".into() },
            AgentEvent::TextDelta { delta: "answer".into() },
        ],
        false,
    );
    assert_eq!(out, "Thinking...\n\nanswer");
}

#[test]
fn streams_reasoning_in_debug_mode() {
    let out = render(&[AgentEvent::ReasoningDelta { delta: "secret".into() }], true);
    assert_eq!(out, "secret");
}

#[test]
fn renders_bash_calls_with_the_command_on_its_own_line() {
    let out = render(
        &[
            AgentEvent::ToolCallStarted { call: call("c1", "bash", r#"{"command":"cargo test"}"#) },
            AgentEvent::ToolCallFinished { call_id: "c1".into(), result: ToolResult::error("exit code 101") },
        ],
        false,
    );
    assert_eq!(out, "● bash\n  cargo test\n\n  exit code 101\n\n");
}

#[test]
fn renders_path_calls_inline() {
    let out = render(
        &[
            AgentEvent::ToolCallStarted { call: call("c1", "read", r#"{"path":"src/lib.rs"}"#) },
            AgentEvent::ToolCallFinished { call_id: "c1".into(), result: ToolResult::ok("1 | fn main() {}\n") },
        ],
        false,
    );
    assert_eq!(out, "● read {\"path\":\"src/lib.rs\"}\n\n  1 | fn main() {}\n\n");
}

#[test]
fn renders_calls_without_arguments_by_name() {
    let out = render(&[AgentEvent::ToolCallStarted { call: ToolCall::new("c1", "read") }], false);
    assert_eq!(out, "● read\n");
}

#[test]
fn truncates_long_tool_results() {
    let long = (1..=20).map(|n| format!("line {n}")).collect::<Vec<_>>().join("\n");
    let out = render(&[AgentEvent::ToolCallFinished { call_id: "c1".into(), result: ToolResult::ok(&long) }], false);
    assert!(out.contains("  line 1"));
    assert!(out.contains("  line 4"));
    assert!(out.contains("… 16 more lines"));
    assert!(!out.contains("line 20"));
}

#[test]
fn prints_errors() {
    let out = render(&[AgentEvent::Error { message: "kaput".into() }], false);
    assert_eq!(out, "\nerror: kaput\n\n");
}

#[test]
fn recognizes_exit_commands() {
    assert!(is_exit_command("quit"));
    assert!(is_exit_command("exit"));
    assert!(!is_exit_command("exit the program"));
    assert!(!is_exit_command("run cargo test"));
}

#[test]
fn truncate_adds_an_ellipsis() {
    assert_eq!(truncate("short", 10), "short");
    assert_eq!(truncate("a very long message", 10), "a very lon…");
}

#[test]
fn numbers_parse_as_std_does() {
    assert_eq!(parse_usize("42"), Some(42));
    assert_eq!(parse_usize("+7"), Some(7));
    assert_eq!(parse_usize("-1"), None);
    assert_eq!(parse_usize(""), None);
    assert_eq!(parse_usize("+"), None);
    assert_eq!(parse_usize("99999999999999999999999"), None);
}

#[test]
fn picker_accepts_numbers() {
    let sessions = vec![summary("01KABC", 1, "fix tests"), summary("01K9ZZ", 2, "refactor")];
    assert_eq!(choose_session("1", &sessions), PickResult::Picked(&sessions[0]));
    assert_eq!(choose_session(" 2 ", &sessions), PickResult::Picked(&sessions[1]));
    assert_eq!(choose_session("0", &sessions), PickResult::Cancelled);
    assert_eq!(choose_session("3", &sessions), PickResult::Cancelled);
}

#[test]
fn picker_accepts_unique_prefixes_and_reports_ambiguity() {
    let sessions = vec![summary("01KABC111", 1, "a"), summary("01KABC222", 2, "b")];
    assert_eq!(choose_session("01KABC111", &sessions), PickResult::Picked(&sessions[0]));
    match choose_session("01KABC", &sessions) {
        PickResult::Ambiguous(matches) => assert_eq!(matches.len(), 2),
        other => panic!("expected ambiguity, got {other:?}"),
    }
    assert_eq!(choose_session("zzz", &sessions), PickResult::Cancelled);
    assert_eq!(choose_session("", &sessions), PickResult::Cancelled);
}

#[test]
fn numeric_prefixes_fall_through_to_prefix_matching() {
    let sessions = vec![summary("847237fa-8b2c", 1, "a"), summary("01KABC111", 2, "b")];
    assert_eq!(choose_session("8472", &sessions), PickResult::Picked(&sessions[0]));
    assert_eq!(choose_session("99999", &sessions), PickResult::Cancelled);
}

#[test]
fn relative_time_renders_compact_units() {
    let now = now();
    let back = |secs: i64| Timestamp { secs: now.secs - secs, nanos: now.nanos };
    assert_eq!(relative_time_at(now, now), "just now");
    assert_eq!(relative_time_at(now, back(12 * 60)), "12 min ago");
    assert_eq!(relative_time_at(now, back(3 * 3600)), "3 hr ago");
    assert_eq!(relative_time_at(now, back(86400)), "yesterday");
    assert_eq!(relative_time_at(now, back(3 * 86400)), "3 days ago");
}

#[test]
fn resumed_banner_shows_the_first_prompt() {
    let s = summary("01KABC", 1, "Fix the failing payment tests");
    assert_eq!(resumed_banner(&s), "Resumed 01KABC — \"Fix the failing payment tests\"");
}

#[test]
fn listing_lines_are_numbered_and_quoted() {
    let sessions = vec![summary("01KABC", 5, "fix tests")];
    let lines = listing_lines(&sessions, "/repo");
    assert_eq!(lines[0], "Sessions for /repo");
    assert_eq!(lines[1], "");
    assert!(lines[2].starts_with("1. 01KABC"));
    assert!(lines[2].contains("\"fix tests\""));
    assert!(lines[2].contains("5 min ago"));
}

#[test]
fn tui_keys_edit_the_input_and_start_turns() {
    let mut state = TuiState::new("deepseek-chat", false);
    for c in "hi".chars() {
        assert_eq!(state.handle_key(Key::Char(c), false, true), KeyAction::Nothing);
    }
    assert_eq!(state.frame(10).input, "> hi");
    assert_eq!(state.handle_key(Key::Enter, false, true), KeyAction::StartTurn("hi".into()));
    let frame = state.frame(10);
    assert_eq!(frame.input, "> ");
    assert_eq!(frame.title, "vava (working…) — deepseek-chat");
    assert!(frame.dim_input);
    assert_eq!(state.handle_key(Key::Interrupt, true, false), KeyAction::CancelTurn);
    assert_eq!(state.handle_key(Key::Interrupt, false, true), KeyAction::Exit);
}

#[test]
fn tui_renders_events_into_lines() {
    let mut state = TuiState::new("m", false);
    state.render_event(&AgentEvent::TextDelta { delta: "one\ntw".into() });
    state.render_event(&AgentEvent::TextDelta { delta: "o".into() });
    state.finish_turn(Ok(()));
    let frame = state.frame(10);
    assert_eq!(frame.conversation, "one\ntwo");
    assert_eq!(frame.panel_title, " conversation ");
    state.finish_turn(Err(vava::error::AgentError::Cancelled));
    assert_eq!(state.frame(10).panel_title, " (cancelled) ");
}

#[test]
fn app_version_is_a_semver_string() {
    let version = app_version();
    let parts: Vec<&str> = version.split('.').collect();
    assert!(parts.len() >= 2, "version should be at least major.minor");
    assert!(parts.iter().all(|part| !part.is_empty()));
}

#[test]
fn payload_has_a_stable_kind_and_concise_message() {
    let error = DesktopError::Agent("the DeepSeek request failed: rate limit exceeded".into());
    let payload = error.into_payload();
    assert_eq!(payload.kind, "agent");
    assert_eq!(payload.message, "agent error: the DeepSeek request failed: rate limit exceeded");
}

#[test]
fn every_variant_has_a_kind() {
    let errors = [
        DesktopError::Repository("x".into()),
        DesktopError::Session("x".into()),
        DesktopError::Configuration("x".into()),
        DesktopError::Credential("x".into()),
        DesktopError::Agent("x".into()),
        DesktopError::Io("x".into()),
        DesktopError::NoRepository,
        DesktopError::NoSession,
    ];
    for error in errors {
        assert!(!error.kind().is_empty());
    }
}

#[test]
fn every_agent_event_variant_translates() {
    let finished = DesktopAgentEvent::from_event(&AgentEvent::ToolCallFinished {
        call_id: "c1".into(),
        result: ToolResult::error("out"),
    });
    assert_eq!(
        finished,
        DesktopAgentEvent::ToolCallFinished {
            call_id: "c1".into(),
            result: DesktopToolResult { content: "out".into(), is_error: true },
        }
    );
    let started = DesktopAgentEvent::from_event(&AgentEvent::ToolCallStarted {
        call: call("call_1", "read", r#"{"path":"src/main.rs"}"#),
    });
    assert_eq!(
        started,
        DesktopAgentEvent::ToolCallStarted {
            call_id: "call_1".into(),
            tool: "read".into(),
            input: r#"{"path":"src/main.rs"}"#.into(),
        }
    );
    assert_eq!(DesktopAgentEvent::from_event(&AgentEvent::TurnStarted), DesktopAgentEvent::TurnStarted);
}

#[test]
fn repository_names_come_from_the_last_component() {
    assert_eq!(repository_name("/repo/brisk-core"), "brisk-core");
    assert_eq!(repository_name("/repo/brisk-core/"), "brisk-core");
    assert_eq!(repository_name("/"), "/");
}

#[test]
fn repository_info_lists_sessions() {
    let sessions = vec![summary("abc123", 1, "fix tests")];
    let info = build_repository_info("/repo/brisk-core", &sessions, Some("abc123"));
    assert_eq!(info.name, "brisk-core");
    assert_eq!(info.root, "/repo/brisk-core");
    assert_eq!(info.id, vava::persistence::repository_key("/repo/brisk-core"));
    assert_eq!(info.active_session_id.as_deref(), Some("abc123"));
    assert_eq!(info.sessions.len(), 1);
    assert_eq!(info.sessions[0].id, "abc123");
    assert_eq!(info.sessions[0].first_user_message.as_deref(), Some("fix tests"));
}

#[test]
fn recents_dedupe_and_cap() {
    let mut recents = Recents::in_memory();
    for n in 0..12 {
        let canonicals: Vec<String> = recents.list().iter().map(|e| e.path.clone()).collect();
        recents.touch(&format!("/repos/r{n}"), &canonicals);
    }
    assert_eq!(recents.list().len(), 10);
    let first = recents.list()[0].path.clone();
    let canonicals: Vec<String> = recents.list().iter().map(|e| e.path.clone()).collect();
    recents.touch(&first, &canonicals);
    assert_eq!(recents.list().len(), 10);
    assert_eq!(recents.list()[0].path, first);
    assert_eq!(recents.list().iter().filter(|e| e.path == first).count(), 1);
}

#[test]
fn recents_tolerate_a_corrupt_file() {
    let recents = Recents::open_at("/data/recents.json".into(), None);
    assert!(recents.list().is_empty());
    assert_eq!(recents.path(), Some("/data/recents.json"));
}

#[test]
fn recents_remove_deletes_one_entry() {
    let mut recents = Recents::in_memory();
    recents.touch("/a", &Vec::new());
    let canonicals: Vec<String> = recents.list().iter().map(|e| e.path.clone()).collect();
    recents.touch("/b", &canonicals);
    recents.remove("/a/");
    assert_eq!(recents.list().len(), 1);
    assert_eq!(recents.list()[0].path, "/b");
}

#[test]
fn recent_repositories_mark_missing_dirs() {
    let entry = RecentEntry { path: "/gone".into(), last_opened_at: "2026-08-11T12:00:00Z".into() };
    let view = recent_repository(&entry, false);
    assert_eq!(view.name, "gone");
    assert!(!view.exists);
    assert_eq!(view.last_opened_at, "2026-08-11T12:00:00Z");
}

#[test]
fn repl_reads_commands_and_choices() {
    let mut state = ReplState::new();
    assert_eq!(state.prompt_text(), "> ");
    assert_eq!(state.on_line("  \n"), ReplAction::Nothing);
    assert_eq!(state.on_line("exit\n"), ReplAction::Exit);
    assert_eq!(state.on_line("/resume\n"), ReplAction::ListSessions);
    assert_eq!(state.on_line("fix it\n"), ReplAction::RunTurn("fix it".into()));
    let sessions = vec![summary("01KABC", 1, "a")];
    state.offer(sessions.clone());
    assert_eq!(state.prompt_text(), "session # or id (empty to cancel): ");
    assert_eq!(state.on_line("1\n"), ReplAction::Pick("1".into(), sessions.clone()));
    state.offer(sessions);
    assert_eq!(state.on_line("\n"), ReplAction::Say("No session selected.".into()));
    assert_eq!(state.on_interrupt(), ReplAction::Exit);
}

#[test]
fn session_info_block_lists_the_session() {
    let header = SessionHeader { id: "01KABC1234".into(), cwd: "/repo".into(), created_at: None };
    let s = summarize(&header, Timestamp { secs: 1786458180, nanos: 0 }, None);
    let lines = info_lines(&s, 3);
    assert_eq!(lines[0], "Session:    01KABC1234");
    assert_eq!(lines[1], "Repository: /repo");
    assert_eq!(lines[2], "Created:    2026-08-11 14:23");
    assert_eq!(lines[3], "Updated:    2026-08-11 14:23");
    assert_eq!(lines[4], "Messages:   3");
}

#[test]
fn touching_stamps_the_new_entry_and_keeps_paths_distinct() {
    let mut recents = Recents::in_memory();
    recents.touch_at("/a", &Vec::new(), "2026-01-01T00:00:00+00:00");
    let canonicals: Vec<String> = recents.list().iter().map(|e| e.path.clone()).collect();
    recents.touch_at("/b", &canonicals, "2026-01-02T00:00:00+00:00");
    let canonicals: Vec<String> = recents.list().iter().map(|e| e.path.clone()).collect();
    recents.touch_at("/a", &canonicals, "2026-01-03T00:00:00+00:00");
    let listed: Vec<(&str, &str)> =
        recents.list().iter().map(|e| (e.path.as_str(), e.last_opened_at.as_str())).collect();
    assert_eq!(listed, vec![("/a", "2026-01-03T00:00:00+00:00"), ("/b", "2026-01-02T00:00:00+00:00")]);
    // The clock's stamp is an RFC 3339 time.
    recents.touch("/c", &vec!["/a".to_string(), "/b".to_string()]);
    assert!(chrono::DateTime::parse_from_rfc3339(&recents.list()[0].last_opened_at).is_ok());
}
