use claude_sessions::config::{
    arr_add_missing, arr_contains_str, configure_mcp_config, default_mcp_config,
    mcp_server_entry, notify_permissions, obj_set,
};
use claude_sessions::json::JsonValue;
use claude_sessions::launch::{build_claude_args, launch_env_overrides, resolve_executable};
use claude_sessions::sessions::{
    encode_project_path, extract_session_messages, jsonl_stems, session_file_name,
};
use claude_sessions::store::{
    comment_to_data, reply_author, session_name_or_unknown, validate_status, DiffComment,
    Session,
};

fn obj_get<'a>(v: &'a JsonValue, key: &str) -> Option<&'a JsonValue> {
    match v {
        JsonValue::Obj(fields) => fields.iter().find(|(k, _)| k == key).map(|(_, v)| v),
        _ => None,
    }
}

#[test]
fn project_path_encoded_with_dashes() {
    assert_eq!(encode_project_path("/Users/sam/project"), "-Users-sam-project");
    assert_eq!(encode_project_path("no-slashes"), "no-slashes");
    assert_eq!(encode_project_path(""), "");
}

#[test]
fn session_file_name_appends_extension() {
    assert_eq!(session_file_name("abc-123"), "abc-123.jsonl");
}

#[test]
fn session_messages_extracted_in_order() {
    let lines = vec![
        r#"{"type":"summary","summary":"irrelevant"}"#.to_string(),
        r#"{"type":"user","uuid":"u1","timestamp":"t1","message":{"role":"user","content":"hi"}}"#
            .to_string(),
        "not json".to_string(),
        String::new(),
        r#"{"type":"assistant","message":{"role":"assistant","content":"hello","model":"m"}}"#
            .to_string(),
        r#"{"type":"user"}"#.to_string(),
    ];
    let msgs = extract_session_messages(&lines);
    assert_eq!(msgs.len(), 2);
    assert_eq!(msgs[0].id, "u1");
    assert_eq!(msgs[0].msg_type, "user");
    assert_eq!(msgs[0].timestamp.as_deref(), Some("t1"));
    // Without a uuid the identifier falls back to the type and the count of
    // messages gathered so far.
    assert_eq!(msgs[1].id, "assistant-1");
    assert_eq!(msgs[1].model.as_deref(), Some("m"));
}

#[test]
fn jsonl_stems_filter_file_names() {
    let names = vec![
        "a.jsonl".to_string(),
        ".jsonl".to_string(),
        "b.txt".to_string(),
        "c.d.jsonl".to_string(),
        "plain".to_string(),
    ];
    assert_eq!(jsonl_stems(&names), vec!["a".to_string(), "c.d".to_string()]);
}

#[test]
fn status_validation() {
    assert!(validate_status("ready"));
    assert!(validate_status("busy"));
    assert!(!validate_status("Ready"));
    assert!(!validate_status("done"));
    assert!(!validate_status(""));
}

#[test]
fn reply_author_prefers_session_name() {
    let session = Session {
        id: "s1".to_string(),
        name: "Fix parser".to_string(),
        cwd: "/tmp".to_string(),
        workspace_id: None,
        worktree_name: None,
        status: "busy".to_string(),
        base_commit: None,
        created_at: "2024-01-01T00:00:00Z".to_string(),
        updated_at: "2024-01-01T00:00:00Z".to_string(),
    };
    assert_eq!(reply_author(&Some(session), "s1"), "Fix parser");
    assert_eq!(reply_author(&None, "s1"), "s1");
    assert_eq!(session_name_or_unknown(Some("n".to_string())), "n");
    assert_eq!(session_name_or_unknown(None), "Unknown");
}

#[test]
fn comment_carried_field_for_field() {
    let c = DiffComment {
        id: "c1".to_string(),
        session_id: "s1".to_string(),
        file_path: "src/a.rs".to_string(),
        line_number: Some(12),
        line_type: Some("add".to_string()),
        author: "user".to_string(),
        content: "why this?".to_string(),
        status: "open".to_string(),
        parent_id: None,
        created_at: "2024-01-01T00:00:00Z".to_string(),
        updated_at: "2024-01-02T00:00:00Z".to_string(),
    };
    let d = comment_to_data(c);
    assert_eq!(d.id, "c1");
    assert_eq!(d.line_number, Some(12));
    assert_eq!(d.line_type.as_deref(), Some("add"));
    assert_eq!(d.status, "open");
    assert_eq!(d.updated_at, "2024-01-02T00:00:00Z");
}

#[test]
fn launch_arguments_built() {
    let args = build_claude_args("do the thing", &None);
    assert_eq!(
        args,
        vec!["--print", "--output-format", "stream-json", "--verbose", "do the thing"]
    );
    let resumed = build_claude_args("continue", &Some("sess-1".to_string()));
    assert_eq!(
        resumed,
        vec![
            "--print",
            "--output-format",
            "stream-json",
            "--verbose",
            "--resume",
            "sess-1",
            "continue"
        ]
    );
}

#[test]
fn executable_resolution_prefers_first_existing() {
    let candidates = vec![
        "/opt/homebrew/bin/runner".to_string(),
        "/usr/local/bin/runner".to_string(),
    ];
    assert_eq!(
        resolve_executable(&candidates, &vec![false, true], "runner"),
        "/usr/local/bin/runner"
    );
    assert_eq!(
        resolve_executable(&candidates, &vec![true, true], "runner"),
        "/opt/homebrew/bin/runner"
    );
    assert_eq!(resolve_executable(&candidates, &vec![false, false], "runner"), "runner");
}

#[test]
fn environment_overrides_fixed() {
    let env = launch_env_overrides();
    assert_eq!(env[0], ("TERM".to_string(), "xterm-256color".to_string()));
    assert_eq!(env[1], ("LANG".to_string(), "en_US.UTF-8".to_string()));
    assert_eq!(env[2], ("LC_ALL".to_string(), "en_US.UTF-8".to_string()));
}

#[test]
fn mcp_config_gains_server_entry() {
    let entry = mcp_server_entry("/tmp/bridge.cjs", "sess-1");
    let config = default_mcp_config();
    let updated = configure_mcp_config(&config, "bridge", entry);
    let servers = obj_get(&updated, "mcpServers").expect("servers object kept");
    let ours = obj_get(servers, "bridge").expect("entry installed");
    match obj_get(ours, "command") {
        Some(JsonValue::Str(cmd)) => assert_eq!(cmd, "node"),
        _ => panic!("command must be node"),
    }
    match obj_get(ours, "env") {
        Some(env) => match obj_get(env, "CLAUDE_SESSIONS_ID") {
            Some(JsonValue::Str(sid)) => assert_eq!(sid, "sess-1"),
            _ => panic!("session id must be in the env"),
        },
        None => panic!("env must be present"),
    }
}

#[test]
fn mcp_config_without_servers_key_unchanged() {
    let config = JsonValue::Obj(vec![("other".to_string(), JsonValue::Bool(true))]);
    let entry = mcp_server_entry("/tmp/bridge.cjs", "sess-1");
    let updated = configure_mcp_config(&config, "bridge", entry);
    assert!(obj_get(&updated, "mcpServers").is_none());
    assert!(matches!(obj_get(&updated, "other"), Some(JsonValue::Bool(true))));
}

#[test]
fn permission_list_extended_without_duplicates() {
    let perms = notify_permissions("bridge");
    assert_eq!(
        perms,
        vec!["mcp__bridge__notify_ready".to_string(), "mcp__bridge__notify_busy".to_string()]
    );
    let existing = vec![
        JsonValue::Str("mcp__bridge__notify_ready".to_string()),
        JsonValue::Str("Bash(ls:*)".to_string()),
    ];
    let updated = arr_add_missing(existing, &perms);
    assert_eq!(updated.len(), 3);
    assert!(arr_contains_str(&updated, "mcp__bridge__notify_ready"));
    assert!(arr_contains_str(&updated, "mcp__bridge__notify_busy"));
    assert!(arr_contains_str(&updated, "Bash(ls:*)"));
}

#[test]
fn obj_set_replaces_and_appends() {
    let fields = vec![
        ("a".to_string(), JsonValue::Bool(false)),
        ("b".to_string(), JsonValue::Null),
    ];
    let replaced = obj_set(&fields, "a", JsonValue::Bool(true));
    let v = JsonValue::Obj(replaced);
    assert!(matches!(obj_get(&v, "a"), Some(JsonValue::Bool(true))));
    assert!(matches!(obj_get(&v, "b"), Some(JsonValue::Null)));

    let appended = obj_set(&fields, "c", JsonValue::Num("1".to_string()));
    let v2 = JsonValue::Obj(appended);
    assert!(obj_get(&v2, "c").is_some());
}
