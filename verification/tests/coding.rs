use vava::message::ToolResult;
use vava::paths::{ancestors, lexical_candidate, normalize_path, PathError};
use vava::persistence::{
    first_user_message, headers_by_id, log_lines, newest_first, replay_log, repository_key, resolve_prefix,
    summarize, PersistError, PrefixMatch, SessionHeader, SessionId, SessionStore, SessionSummary, Timestamp,
};
use vava::message::{Message, UserMessage, AssistantMessage};
use vava::prompt::system_prompt;
use vava::tool::ToolRegistry;
use vava::tools::{
    bash_report, check_command, check_old_text, plan_edit, read_output, register_coding_tools, wrote_message,
    BashTool, CappedOutput,
};
use vava::error::ToolError;

fn user(content: &str) -> Message {
    Message::User(UserMessage { content: content.into() })
}

fn summary_with_id(id: &str) -> SessionSummary {
    let header = SessionHeader { id: id.into(), cwd: "/repo".into(), created_at: None };
    summarize(&header, Timestamp { secs: 1_700_000_000, nanos: 0 }, None)
}

#[test]
fn includes_the_working_directory() {
    let prompt = system_prompt("/projects/foo", None);
    assert!(prompt.contains("/projects/foo"));
    assert!(prompt.contains("You are vava, a coding agent"));
}

#[test]
fn appends_project_instructions() {
    let prompt = system_prompt("/p", Some("Run cargo test.\n"));
    assert!(prompt.ends_with("Project instructions:\nRun cargo test.\n"));
}

#[test]
fn omits_the_instructions_section_when_absent() {
    let prompt = system_prompt("/p", None);
    assert!(!prompt.contains("Project instructions"));
}

#[test]
fn does_not_inject_the_repository_tree() {
    let prompt = system_prompt("/p", None);
    assert!(!prompt.contains("file tree") && !prompt.contains("tree:"));
}

#[test]
fn session_id_display_and_matching() {
    let id = SessionId::new("01KABC1234");
    assert_eq!(id.short(), "01KABC");
    assert_eq!(id.full(), "01KABC1234");
    assert!(id.matches_prefix("01K"));
    assert!(id.matches_prefix("01KABC1234"));
    assert!(!id.matches_prefix("01KABC1235"));
    assert_eq!(id.to_string(), "01KABC1234");
    assert_eq!(SessionId::new("ab").short(), "ab");
}

#[test]
fn short_ids_stop_at_a_character_boundary() {
    // The sixth byte falls inside `é`: the whole id is shown.
    assert_eq!(SessionId::new("abcdeé").short(), "abcdeé");
    assert_eq!(SessionId::new("abcdéxyz").short(), "abcdé");
}

#[test]
fn prefix_resolution_detects_ambiguity_and_uniqueness() {
    let sessions = vec![summary_with_id("01KABC1111"), summary_with_id("01KABC2222"), summary_with_id("01K9ZZ3333")];
    match resolve_prefix(&sessions, "01K") {
        PrefixMatch::Ambiguous(matches) => assert_eq!(matches.len(), 3),
        other => panic!("expected ambiguous, got {other:?}"),
    }
    match resolve_prefix(&sessions, "01KABC") {
        PrefixMatch::Ambiguous(matches) => assert_eq!(matches.len(), 2),
        other => panic!("expected ambiguous, got {other:?}"),
    }
    match resolve_prefix(&sessions, "01K9ZZ") {
        PrefixMatch::Unique(summary) => assert_eq!(summary.id.as_str(), "01K9ZZ3333"),
        other => panic!("expected unique, got {other:?}"),
    }
    assert!(matches!(resolve_prefix(&sessions, "zzz"), PrefixMatch::NoMatch));
    assert!(matches!(resolve_prefix(&sessions, ""), PrefixMatch::NoMatch));
}

#[test]
fn header_record_has_the_session_type() {
    let header = SessionHeader {
        id: "abc".into(),
        cwd: "/projects/foo".into(),
        created_at: Some("2026-08-11T12:00:00+00:00".into()),
    };
    assert_eq!(
        header.to_record(),
        r#"{"created_at":"2026-08-11T12:00:00+00:00","cwd":"/projects/foo","id":"abc","type":"session"}"#
    );
    let legacy = SessionHeader { id: "a\"b".into(), cwd: "/p".into(), created_at: None };
    assert_eq!(legacy.to_record(), r#"{"created_at":null,"cwd":"/p","id":"a\"b","type":"session"}"#);
}

#[test]
fn create_places_the_log_in_the_repository_directory() {
    let store = SessionStore::at("/data/vava/sessions".into());
    let (log, header) = store.create("/projects/foo");
    assert_eq!(header.id.len(), 36);
    for (i, c) in header.id.chars().enumerate() {
        if [8, 13, 18, 23].contains(&i) {
            assert_eq!(c, '-');
        } else {
            assert!(c.is_ascii_hexdigit() && !c.is_ascii_uppercase());
        }
    }
    assert_eq!(header.id.chars().nth(14), Some('4'));
    assert_eq!(header.cwd, "/projects/foo");
    assert!(header.created_at.is_some());
    assert_eq!(log.id().as_str(), header.id);
    let key = repository_key("/projects/foo");
    assert_eq!(log.path(), format!("/data/vava/sessions/{key}/{}.jsonl", header.id));
}

#[test]
fn repository_key_is_sixteen_hex_digits_and_stable() {
    let key = repository_key("/projects/foo");
    assert_eq!(key.len(), 16);
    assert!(key.chars().all(|c| c.is_ascii_hexdigit() && !c.is_ascii_uppercase()));
    assert_eq!(key, repository_key("/projects/foo"));
    assert_ne!(key, repository_key("/projects/bar"));
    // FNV-1a of no bytes is the offset basis.
    assert_eq!(repository_key(""), "cbf29ce484222325");
}

#[test]
fn append_and_replay_round_trip() {
    let content = "{\"type\":\"session\"}\n{\"type\":\"user\",\"content\":\"fix the tests\"}\n{\"type\":\"assistant\",\"content\":\"ok\"}\n";
    let header = SessionHeader { id: "s1".into(), cwd: "/p".into(), created_at: None };
    let records = vec![Ok(user("fix the tests")), Ok(Message::Assistant(AssistantMessage::new("ok")))];
    let (h, messages) = replay_log("s1", content, Ok(header.clone()), records).unwrap();
    assert_eq!(h, header);
    assert_eq!(messages, vec![user("fix the tests"), Message::Assistant(AssistantMessage::new("ok"))]);
    assert_eq!(first_user_message(&messages).as_deref(), Some("fix the tests"));
}

#[test]
fn tolerates_a_truncated_final_line() {
    let content = "{\"type\":\"session\"}\n{\"type\":\"user\",\"content\":\"first\"}\n{\"type\":\"user\",\"content\":\"trun\n";
    assert_eq!(log_lines(content).len(), 3);
    let header = SessionHeader { id: "s1".into(), cwd: "/p".into(), created_at: None };
    let records = vec![Ok(user("first")), Err("EOF while parsing a string".to_string())];
    let (_, messages) = replay_log("s1", content, Ok(header), records).unwrap();
    assert_eq!(messages, vec![user("first")]);
}

#[test]
fn corrupt_middle_records_are_errors() {
    let content = "{\"type\":\"session\"}\n{\"type\":\"user\",\"content\":\"first\"}\nthis is not json\n{\"type\":\"user\",\"content\":\"second\"}\n";
    let header = SessionHeader { id: "s1".into(), cwd: "/p".into(), created_at: None };
    let records = vec![Ok(user("first")), Err("expected value".to_string()), Ok(user("second"))];
    let err = replay_log("s1", content, Ok(header), records).unwrap_err();
    assert_eq!(err, PersistError::Corrupt { id: "s1".into(), message: "record 3: expected value".into() });
    assert_eq!(err.to_string(), "session `s1` is corrupt: record 3: expected value");
}

#[test]
fn a_corrupt_record_equal_to_the_last_line_is_still_an_error() {
    let content = "{\"type\":\"session\",\"id\":\"s1\",\"cwd\":\"/p\"}\nx\n{\"type\":\"user\",\"content\":\"a\"}\nx\n";
    let header = SessionHeader { id: "s1".into(), cwd: "/p".into(), created_at: None };
    let records = vec![Err("expected value".to_string()), Ok(user("a")), Err("expected value".to_string())];
    let err = replay_log("s1", content, Ok(header), records).unwrap_err();
    assert_eq!(err, PersistError::Corrupt { id: "s1".into(), message: "record 2: expected value".into() });
}

#[test]
fn empty_logs_and_bad_headers_are_corrupt() {
    let err = replay_log("stem", "", Err("unused".into()), Vec::new()).unwrap_err();
    assert_eq!(err, PersistError::Corrupt { id: "stem".into(), message: "session log is empty".into() });
    let err = replay_log("stem", "nope\n", Err("expected ident".into()), Vec::new()).unwrap_err();
    assert_eq!(err, PersistError::Corrupt { id: "stem".into(), message: "bad header: expected ident".into() });
}

#[test]
fn sessions_list_newest_first() {
    let header = |id: &str| SessionHeader { id: id.into(), cwd: "/repo".into(), created_at: None };
    let at = |secs: i64| Timestamp { secs, nanos: 0 };
    let a = summarize(&header("a"), at(60), Some("first".into()));
    let b = summarize(&header("b"), at(120), Some("second".into()));
    let c = summarize(&header("c"), at(120), Some("third".into()));
    let sorted = newest_first(vec![a.clone(), b.clone(), c.clone()]);
    assert_eq!(sorted, vec![c, b, a]);
}

#[test]
fn created_at_falls_back_to_the_modification_time() {
    let modified = Timestamp { secs: 42, nanos: 7 };
    let header = SessionHeader { id: "x".into(), cwd: "/r".into(), created_at: Some("2026-08-11T12:00:00Z".into()) };
    let s = summarize(&header, modified, None);
    assert_eq!(s.created_at, Timestamp { secs: 1786449600, nanos: 0 });
    assert_eq!(s.updated_at, modified);
    let header = SessionHeader { id: "x".into(), cwd: "/r".into(), created_at: Some("yesterday".into()) };
    assert_eq!(summarize(&header, modified, None).created_at, modified);
}

#[test]
fn register_adds_the_read_tool() {
    let mut registry = ToolRegistry::new();
    register_coding_tools(&mut registry);
    assert_eq!(registry.names(), vec!["read"]);
}

#[test]
fn normalizes_dot_components() {
    assert_eq!(normalize_path("/r/./a/./b.txt"), "/r/a/b.txt");
    assert_eq!(normalize_path("/r/a/../b"), "/r/b");
}

#[test]
fn rejects_parent_traversal_outside_the_root() {
    assert_eq!(lexical_candidate("/root", "../secret.txt"), Err(PathError::OutsideRoot("../secret.txt".into())));
    assert_eq!(
        lexical_candidate("/root", "a/../../secret.txt"),
        Err(PathError::OutsideRoot("a/../../secret.txt".into()))
    );
    assert_eq!(lexical_candidate("/root", "/etc/passwd"), Err(PathError::OutsideRoot("/etc/passwd".into())));
    assert!(matches!(lexical_candidate("/root", ""), Err(PathError::Invalid(..))));
    assert_eq!(lexical_candidate("/root", "new/dir/file.rs"), Ok("/root/new/dir/file.rs".into()));
}

#[test]
fn repository_root_search_visits_nearest_first() {
    assert_eq!(ancestors("/a/b/c"), vec!["/a/b/c", "/a/b", "/a", "/"]);
    assert_eq!(ancestors("x/y"), vec!["x/y", "x", ""]);
}

#[test]
fn reads_a_file_with_line_numbers() {
    let result = read_output("use anyhow::Result;\n\nfn main() {}\n", None, None);
    assert!(!result.is_error, "{}", result.content);
    assert_eq!(result.content, "1 | use anyhow::Result;\n2 | \n3 | fn main() {}\n");
}

#[test]
fn respects_offset_and_limit() {
    let content = (1..=10).map(|n| format!("line {n}")).collect::<Vec<_>>().join("\n");
    let result = read_output(&content, Some(3), Some(2));
    assert_eq!(result.content, " 3 | line 3\n 4 | line 4\n... 6 more lines\n");
}

#[test]
fn reports_empty_files() {
    let result = read_output("", None, None);
    assert!(!result.is_error);
    assert_eq!(result.content, "(file is empty)");
}

#[test]
fn offsets_past_the_end_are_errors() {
    let result = read_output("a\nb\n", Some(5), None);
    assert!(result.is_error);
    assert_eq!(result.content, "offset 5 is past the end of the file (2 lines)");
}

#[test]
fn replaces_a_unique_occurrence() {
    let updated = plan_edit(
        "fn main() {\n    println!(\"old\");\n}\n",
        "println!(\"old\")",
        "println!(\"new\")",
        "main.rs",
    )
    .unwrap();
    assert_eq!(updated, "fn main() {\n    println!(\"new\");\n}\n");
}

#[test]
fn fails_when_old_text_is_missing() {
    let err = plan_edit("hello world", "nope", "x", "f.txt").unwrap_err();
    assert!(err.is_error);
    assert!(err.content.contains("was not found"));
}

#[test]
fn fails_when_old_text_is_ambiguous() {
    let err = plan_edit("hello hello world", "hello", "bye", "f.txt").unwrap_err();
    assert!(err.is_error);
    assert!(err.content.contains("occurs 2 times"));
    assert!(err.content.contains("surrounding context"));
}

#[test]
fn rejects_empty_old_text() {
    let err = check_old_text("").unwrap();
    assert!(err.is_error);
    assert!(err.content.contains("must not be empty"));
    assert!(check_old_text("abc").is_none());
}

#[test]
fn edits_utf8_content() {
    let updated = plan_edit("héllo wörld", "wörld", "world", "u.txt").unwrap();
    assert_eq!(updated, "héllo world");
}

#[test]
fn write_reports_the_byte_count() {
    let result = wrote_message("héllo".len(), "u.txt");
    assert_eq!(result, ToolResult::ok("wrote 6 bytes to `u.txt`"));
}

#[test]
fn captures_stdout_and_exit_code() {
    let result = bash_report("hello", "", Some(0), "0.01", false, false);
    assert!(!result.is_error, "{}", result.content);
    assert_eq!(result.content, "[stdout]\nhello\nexit code: 0\nduration: 0.01s\n");
}

#[test]
fn captures_stderr() {
    let result = bash_report("", "oops\n", Some(0), "0.00", false, false);
    assert!(result.content.contains("[stderr]"));
    assert!(result.content.contains("oops"));
    assert!(result.content.contains("exit code: 0"));
}

#[test]
fn failing_commands_are_error_results() {
    let result = bash_report("", "", Some(3), "0.00", false, false);
    assert!(result.is_error);
    assert!(result.content.contains("exit code: 3"));
}

#[test]
fn times_out_and_kills_the_child() {
    let result = bash_report("", "", None, "0.10", true, false);
    assert!(result.is_error);
    assert!(result.content.contains("timeout: true"));
    assert!(result.content.contains("exit code: killed"));
}

#[test]
fn caps_captured_output() {
    let mut capture = CappedOutput::new(64);
    assert!(capture.accept(&[b'x'; 40]));
    assert!(!capture.accept(&[b'y'; 40]));
    let (text, truncated) = capture.finish();
    assert!(truncated);
    assert_eq!(text.len(), 64);
    let result = bash_report(&text, "", Some(0), "0.00", false, truncated);
    assert!(result.content.contains("(output truncated)"));
}

#[test]
fn empty_command_is_typed_error() {
    let err = check_command("   ").unwrap_err();
    assert!(matches!(err, ToolError::InvalidArguments { tool, .. } if tool == "bash"));
    assert!(check_command("ls").is_ok());
}

#[test]
fn bash_tool_keeps_its_limits() {
    let tool = BashTool::new(100, 8192);
    assert_eq!(tool.timeout_millis, 100);
    assert_eq!(tool.max_output, 8192);
    assert_eq!(tool.definition().name, "bash");
}

#[test]
fn headers_sort_by_id() {
    let header = |id: &str| SessionHeader { id: id.into(), cwd: "/p".into(), created_at: None };
    let sorted = headers_by_id(vec![header("b"), header("c"), header("a")]);
    let ids: Vec<&str> = sorted.iter().map(|h| h.id.as_str()).collect();
    assert_eq!(ids, vec!["a", "b", "c"]);
}

#[test]
fn records_written_one_per_line_read_back_as_written() {
    let records = [
        r#"{"type":"session","id":"s","cwd":"/r"}"#,
        r#"{"role":"user","content":"hi"}"#,
        "",
        r#"{"role":"assistant","content":"a \"quoted\" word"}"#,
    ];
    let mut log = String::new();
    for record in records {
        log.push_str(record);
        log.push('\n');
    }
    assert_eq!(log_lines(&log), records.iter().map(|r| r.to_string()).collect::<Vec<_>>());
}

#[test]
fn overlapping_matches_are_ambiguous() {
    let err = plan_edit("aaa", "aa", "b", "f.txt").unwrap_err();
    assert!(err.is_error);
    assert_eq!(
        err.content,
        "`old_text` occurs 2 times in `f.txt`; include more surrounding context (read the file first) so it matches exactly once"
    );
}

#[test]
fn the_default_bash_tool_waits_two_minutes() {
    let tool = BashTool::default();
    assert_eq!(tool.timeout_millis, 120_000);
    assert_eq!(tool.max_output, 32 * 1024);
}
