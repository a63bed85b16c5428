use claude_sessions::dispatch::{
    dispatch_stdout_lines, handle_exit, process_stderr_line, process_stdout_line,
};
use claude_sessions::messages::ClaudeMessage;
use claude_sessions::registry::SessionRegistry;

#[test]
fn second_start_same_session_rejected() {
    let mut reg: SessionRegistry<u32> = SessionRegistry::new();
    assert!(reg.try_insert("abc".to_string(), 1).is_ok());
    assert!(reg.is_running("abc"));

    // A second start for the running session fails and leaves the first
    // entry untouched.
    assert!(reg.try_insert("abc".to_string(), 2).is_err());
    assert_eq!(reg.get("abc"), Some(&1));

    assert!(reg.try_insert("xyz".to_string(), 3).is_ok());
    assert_eq!(reg.list_running(), vec!["abc".to_string(), "xyz".to_string()]);
}

#[test]
fn stop_removes_entry_and_reports_missing() {
    let mut reg: SessionRegistry<u32> = SessionRegistry::new();
    assert!(reg.try_insert("abc".to_string(), 5).is_ok());
    assert_eq!(reg.remove("abc"), Some(5));
    assert!(!reg.is_running("abc"));
    assert_eq!(reg.remove("abc"), None);
    assert!(reg.list_running().is_empty());
}

#[test]
fn dispatcher_emits_one_event_per_well_formed_line() {
    let lines = vec![
        r#"{"type":"system","subtype":"init"}"#.to_string(),
        "not json at all".to_string(),
        String::new(),
        r#"{"type":"result","subtype":"success","result":"done"}"#.to_string(),
        r#"{"type":"unheard-of"}"#.to_string(),
    ];
    let events = dispatch_stdout_lines("abc", &lines);
    assert_eq!(events.len(), 2);
    assert_eq!(events[0].session_id, "abc");
    assert_eq!(events[1].session_id, "abc");
    match &events[0].message {
        ClaudeMessage::System { subtype, .. } => assert_eq!(subtype, "init"),
        _ => panic!("first event must be the system message"),
    }
    match &events[1].message {
        ClaudeMessage::Result { subtype, result, .. } => {
            assert_eq!(subtype, "success");
            assert_eq!(result.as_deref(), Some("done"));
        }
        _ => panic!("second event must be the result message"),
    }
}

#[test]
fn stdout_line_skips_empty_and_malformed() {
    assert!(process_stdout_line("abc", "").is_none());
    assert!(process_stdout_line("abc", "{broken").is_none());
    let event = process_stdout_line("abc", r#"{"type":"user","message":"hi"}"#)
        .expect("well-formed line yields an event");
    assert_eq!(event.session_id, "abc");
}

#[test]
fn stderr_line_forwarded_raw() {
    assert!(process_stderr_line("abc", "").is_none());
    let e = process_stderr_line("abc", "warning: something").expect("non-empty line");
    assert_eq!(e.session_id, "abc");
    assert_eq!(e.error, "warning: something");
}

#[test]
fn stub_agent_round_trip() {
    // Scenario: session "abc" runs a stub agent that prints one result line
    // and exits 0.
    let mut reg: SessionRegistry<u32> = SessionRegistry::new();
    reg.try_insert("abc".to_string(), 1).expect("fresh session starts");

    let lines = vec![r#"{"type":"result","subtype":"success","result":"done"}"#.to_string()];
    let events = dispatch_stdout_lines("abc", &lines);
    assert_eq!(events.len(), 1);
    match &events[0].message {
        ClaudeMessage::Result { subtype, result, .. } => {
            assert_eq!(subtype, "success");
            assert_eq!(result.as_deref(), Some("done"));
        }
        _ => panic!("expected the printed result message"),
    }

    let done = handle_exit(&mut reg, "abc", Some(0));
    assert_eq!(done.session_id, "abc");
    assert_eq!(done.exit_code, Some(0));
    assert!(!reg.list_running().contains(&"abc".to_string()));
}

#[test]
fn exit_without_entry_still_reports() {
    let mut reg: SessionRegistry<u32> = SessionRegistry::new();
    let done = handle_exit(&mut reg, "gone", None);
    assert_eq!(done.session_id, "gone");
    assert_eq!(done.exit_code, None);
}
